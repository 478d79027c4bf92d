//! The name of the source archive, and the base name that its output goes by.

use vstd::prelude::*;

use crate::error::{seen, seen_text, ConvertError, ErrorView};
use crate::text::{chars_of, contains, ends_with, matches_at, opt_text, string_of};
use crate::text_laws::{lemma_stands_at, stands_at};

verus! {

/// What the file name of an archive ends with.
pub const ARCHIVE_SUFFIX: &'static str = ".tar.gz";

/// The position behind the last `/` of `path`, or 0.
pub open spec fn component_start(path: Seq<char>) -> int
    decreases path.len(),
{
    if path.len() == 0 || path.last() == '/' {
        path.len() as int
    } else {
        component_start(path.drop_last())
    }
}

/// The last component of a path whose components are separated by `/`: empty
/// components and components `.` are passed over; there is none where `..` comes
/// last.
pub open spec fn last_component(path: Seq<char>) -> Option<Seq<char>>
    decreases path.len(),
{
    if path.len() == 0 {
        None
    } else {
        let start = component_start(path);
        let component = path.skip(start);
        if 0 < start <= path.len() && (component.len() == 0 || component == seq!['.']) {
            last_component(path.take(start - 1))
        } else if component.len() == 0 || component == seq!['.'] || component == seq!['.', '.'] {
            None
        } else {
            Some(component)
        }
    }
}

/// A path that is read alike on every system: it holds no backslash, and begins
/// neither with a drive letter and its colon nor with two slashes.
pub open spec fn is_portable(path: Seq<char>) -> bool {
    &&& !path.contains('\\')
    &&& !(path.len() >= 2 && path[1] == ':')
    &&& !(path.len() >= 2 && path[0] == '/' && path[1] == '/')
}

/// `name` can be the file name of `path`: it is the last component where the
/// path is read alike on every system, and in any case a part of the path that
/// is not empty, or missing.
pub open spec fn may_be_file_name(name: Option<Seq<char>>, path: Seq<char>) -> bool {
    &&& is_portable(path) ==> name == last_component(path)
    &&& name matches Some(text) ==> text.len() > 0 && contains(path, text)
}

/// What is found out about an archive of the file name `file_name`.
pub open spec fn tar_gz_check(
    file_name: Option<Seq<char>>,
    path: Seq<char>,
) -> Result<(), ErrorView> {
    match file_name {
        None => Err(ErrorView::InvalidArchiveName { path }),
        Some(name) => if ends_with(name, ARCHIVE_SUFFIX@) {
            Ok(())
        } else {
            Err(ErrorView::NotTarGz { path })
        },
    }
}

/// The base name of an archive of the file name `file_name`.
pub open spec fn base_name(file_name: Option<Seq<char>>, path: Seq<char>) -> Result<
    Seq<char>,
    ErrorView,
> {
    match file_name {
        None => Err(ErrorView::InvalidArchiveName { path }),
        Some(name) => if !ends_with(name, ARCHIVE_SUFFIX@) {
            Err(ErrorView::NotTarGz { path })
        } else if name.len() == ARCHIVE_SUFFIX@.len() {
            Err(ErrorView::EmptyBaseName { path })
        } else {
            Ok(name.take(name.len() - ARCHIVE_SUFFIX@.len()))
        },
    }
}

/// The base name under which an archive is converted, given whether it is there.
pub open spec fn archive_choice(
    is_file: bool,
    file_name: Option<Seq<char>>,
    path: Seq<char>,
) -> Result<Seq<char>, ErrorView> {
    if !is_file {
        Err(ErrorView::ArchiveNotFound { path })
    } else {
        base_name(file_name, path)
    }
}

/// The file name of an archive is its base name, which is not empty, and the
/// suffix; and of every such file name the base name is found.
pub proof fn law_file_name_is_base_name_and_suffix(
    file_name: Option<Seq<char>>,
    base: Seq<char>,
    path: Seq<char>,
)
    ensures
        base_name(file_name, path) == Ok::<Seq<char>, ErrorView>(base) <==> (base.len() > 0
            && file_name == Some(base + ARCHIVE_SUFFIX@)),
{
    if let Some(name) = file_name {
        let n = name.len() - ARCHIVE_SUFFIX@.len();
        if base_name(file_name, path) == Ok::<Seq<char>, ErrorView>(base) {
            assert(name =~= name.take(n) + name.subrange(n, n + ARCHIVE_SUFFIX@.len()));
        }
        if base.len() > 0 && name == base + ARCHIVE_SUFFIX@ {
            assert(name.subrange(n, n + ARCHIVE_SUFFIX@.len()) =~= ARCHIVE_SUFFIX@);
            assert(name.take(n) =~= base);
        }
    }
}

/// An archive that has a base name passes the check of its name, and one that
/// fails the check has no base name for the same reason.
pub proof fn law_base_name_agrees_with_check(file_name: Option<Seq<char>>, path: Seq<char>)
    ensures
        base_name(file_name, path) is Ok ==> tar_gz_check(file_name, path) is Ok,
        tar_gz_check(file_name, path) matches Err(error) ==> base_name(file_name, path) == Err::<
            Seq<char>,
            ErrorView,
        >(error),
{
}

/// A slash at the end of a path does not change its last component.
pub proof fn law_trailing_slash_does_not_matter(path: Seq<char>)
    ensures
        last_component(path.push('/')) == last_component(path),
{
    let longer = path.push('/');
    assert(component_start(longer) == longer.len());
    assert(longer.take(longer.len() - 1) =~= path);
}

/// The component behind a slash begins behind that slash.
proof fn lemma_component_start(dir: Seq<char>, name: Seq<char>)
    requires
        !name.contains('/'),
    ensures
        component_start(dir.push('/') + name) == dir.len() + 1,
    decreases name.len(),
{
    let path = dir.push('/') + name;
    if name.len() == 0 {
        assert(path =~= dir.push('/'));
    } else {
        let init = name.drop_last();
        assert(path.last() == name.last());
        assert(name.contains(name.last()));
        assert(path.drop_last() =~= dir.push('/') + init);
        assert(!init.contains('/')) by {
            if init.contains('/') {
                let k = choose|k: int| 0 <= k < init.len() && init[k] == '/';
                assert(name[k] == '/');
            }
        }
        lemma_component_start(dir, init);
    }
}

/// An archive in any directory goes by the base name of its file name.
pub proof fn law_directory_does_not_matter(dir: Seq<char>, base: Seq<char>, path: Seq<char>)
    requires
        base.len() > 0,
        !base.contains('/'),
    ensures
        base_name(last_component(dir.push('/') + (base + ARCHIVE_SUFFIX@)), path) == Ok::<
            Seq<char>,
            ErrorView,
        >(base),
{
    reveal_strlit(".tar.gz");
    let name = base + ARCHIVE_SUFFIX@;
    let longer = dir.push('/') + name;
    assert(!name.contains('/')) by {
        if name.contains('/') {
            let k = choose|k: int| 0 <= k < name.len() && name[k] == '/';
            if k < base.len() {
                assert(base[k] == '/');
            } else {
                assert(ARCHIVE_SUFFIX@[k - base.len()] == '/');
            }
        }
    }
    lemma_component_start(dir, name);
    assert(longer.skip(dir.len() as int + 1) =~= name);
    law_file_name_is_base_name_and_suffix(last_component(longer), base, path);
}

/// An archive that is there is converted under a name exactly where its file name
/// is that name, which is not empty, and `.tar.gz`.
pub proof fn law_archive_goes_by_its_file_name(
    file_name: Option<Seq<char>>,
    base: Seq<char>,
    path: Seq<char>,
)
    ensures
        archive_choice(true, file_name, path) == Ok::<Seq<char>, ErrorView>(base) <==> (base.len()
            > 0 && file_name == Some(base + ".tar.gz"@)),
        base_name(file_name, path) == Ok::<Seq<char>, ErrorView>(base) <==> (base.len() > 0
            && file_name == Some(base + ".tar.gz"@)),
{
    law_file_name_is_base_name_and_suffix(file_name, base, path);
}

/// Two archives that are converted under one name have one file name, so that no
/// archive takes the output directory of another one in its own directory.
pub proof fn law_archives_are_told_apart(
    file_name: Option<Seq<char>>,
    path: Seq<char>,
    other_name: Option<Seq<char>>,
    other_path: Seq<char>,
)
    requires
        archive_choice(true, file_name, path) is Ok,
        archive_choice(true, file_name, path) == archive_choice(true, other_name, other_path),
    ensures
        file_name == other_name,
{
    let base = archive_choice(true, file_name, path)->Ok_0;
    law_archive_goes_by_its_file_name(file_name, base, path);
    law_archive_goes_by_its_file_name(other_name, base, other_path);
}

/// An archive is refused, with its path, where it is not there; else where it has
/// no file name; else where that does not end with `.tar.gz`; else where it is
/// nothing but `.tar.gz`.
pub proof fn law_refused_archives(is_file: bool, file_name: Option<Seq<char>>, path: Seq<char>)
    ensures
        !is_file ==> archive_choice(is_file, file_name, path) == Err::<Seq<char>, ErrorView>(
            ErrorView::ArchiveNotFound { path },
        ),
        file_name is None ==> {
            let error = ErrorView::InvalidArchiveName { path };
            &&& tar_gz_check(file_name, path) == Err::<(), ErrorView>(error)
            &&& base_name(file_name, path) == Err::<Seq<char>, ErrorView>(error)
            &&& is_file ==> archive_choice(is_file, file_name, path) == Err::<Seq<char>, ErrorView>(
                error,
            )
        },
        file_name matches Some(name) ==> !stands_at(name, ".tar.gz"@, name.len() - 7) ==> {
            let error = ErrorView::NotTarGz { path };
            &&& tar_gz_check(file_name, path) == Err::<(), ErrorView>(error)
            &&& base_name(file_name, path) == Err::<Seq<char>, ErrorView>(error)
            &&& is_file ==> archive_choice(is_file, file_name, path) == Err::<Seq<char>, ErrorView>(
                error,
            )
        },
        file_name matches Some(name) ==> stands_at(name, ".tar.gz"@, name.len() - 7)
            ==> tar_gz_check(file_name, path) == Ok::<(), ErrorView>(()),
        file_name == Some(".tar.gz"@) ==> {
            let error = ErrorView::EmptyBaseName { path };
            &&& base_name(file_name, path) == Err::<Seq<char>, ErrorView>(error)
            &&& is_file ==> archive_choice(is_file, file_name, path) == Err::<Seq<char>, ErrorView>(
                error,
            )
        },
{
    reveal_strlit(".tar.gz");
    if let Some(name) = file_name {
        lemma_stands_at(name, ".tar.gz"@, name.len() - 7);
        if name == ".tar.gz"@ {
            assert(stands_at(name, ".tar.gz"@, 0));
        }
    }
}

/// The last component of a path is the name behind its last slash, or the whole
/// path where it holds none; `.` behind a slash is passed over, and neither `..`
/// nor `.` alone is a name.
pub proof fn law_last_component(dir: Seq<char>, name: Seq<char>)
    requires
        name.len() > 0,
        !name.contains('/'),
        name != seq!['.'],
        name != seq!['.', '.'],
    ensures
        last_component(name) == Some(name),
        last_component(dir.push('/') + name) == Some(name),
        last_component(dir.push('/') + seq!['.']) == last_component(dir),
        last_component(dir.push('/') + seq!['.', '.']) is None,
        last_component(seq!['.', '.']) is None,
        last_component(seq!['.']) is None,
        last_component(seq![]) is None,
{
    let longer = dir.push('/') + name;
    let one = seq!['.'];
    let two = seq!['.', '.'];
    lemma_component_start(dir, name);
    assert(longer.skip(dir.len() as int + 1) =~= name);
    assert(!one.contains('/') && !two.contains('/'));
    lemma_component_start(dir, one);
    lemma_component_start(dir, two);
    let point = dir.push('/') + one;
    assert(point.skip(dir.len() as int + 1) =~= one);
    assert(point.take(dir.len() as int) =~= dir);
    let points = dir.push('/') + two;
    assert(points.skip(dir.len() as int + 1) =~= two);
    lemma_no_slash(name);
    lemma_no_slash(one);
    lemma_no_slash(two);
    assert(name.skip(0) =~= name);
    assert(one.skip(0) =~= one);
    assert(two.skip(0) =~= two);
    assert(last_component(one) is None);
    assert(two != one) by {
        assert(two.len() == 2 && one.len() == 1);
    }
}

/// A path without a slash is one component.
proof fn lemma_no_slash(name: Seq<char>)
    requires
        !name.contains('/'),
    ensures
        component_start(name) == 0,
    decreases name.len(),
{
    if name.len() > 0 {
        let init = name.drop_last();
        assert(name.contains(name.last()));
        assert(!init.contains('/')) by {
            if init.contains('/') {
                let k = choose|k: int| 0 <= k < init.len() && init[k] == '/';
                assert(name[k] == '/');
            }
        }
        lemma_no_slash(init);
    }
}

/// The file name of a path is its last component, unless the path holds a
/// backslash, or begins with a drive letter and its colon or with two slashes.
pub proof fn law_file_name_is_the_last_component(path: Seq<char>, name: Option<Seq<char>>)
    requires
        may_be_file_name(name, path),
        !path.contains('\\'),
        path.len() < 2 || path[1] != ':',
        path.len() < 2 || path[0] != '/' || path[1] != '/',
    ensures
        name == last_component(path),
{
}

/// An archive `base.tar.gz`, in whatever directory, is converted under the name
/// `base`. (The path holds no backslash, and begins neither with a drive letter
/// nor with two slashes.)
pub proof fn law_archive_in_a_directory(
    dir: Seq<char>,
    base: Seq<char>,
    path: Seq<char>,
    name: Option<Seq<char>>,
)
    requires
        base.len() > 0,
        !base.contains('/'),
        path == base + ".tar.gz"@ || path == dir.push('/') + (base + ".tar.gz"@),
        !path.contains('\\'),
        path[1] != ':',
        path[0] != '/' || path[1] != '/',
        may_be_file_name(name, path),
    ensures
        archive_choice(true, name, path) == Ok::<Seq<char>, ErrorView>(base),
{
    reveal_strlit(".tar.gz");
    let file_name = base + ".tar.gz"@;
    assert(!file_name.contains('/')) by {
        if file_name.contains('/') {
            let k = choose|k: int| 0 <= k < file_name.len() && file_name[k] == '/';
            if k < base.len() {
                assert(base[k] == '/');
            } else {
                assert(".tar.gz"@[k - base.len()] == '/');
            }
        }
    }
    assert(file_name.len() > 2);
    law_last_component(dir, file_name);
    assert(name == Some(file_name));
    law_archive_goes_by_its_file_name(name, base, path);
}

/// `Path::file_name` gives the final component of a path, if it has one. On a
/// path that every system reads alike this is the last component between
/// slashes, after `Path::components` has passed over repeated separators, `.`
/// and a trailing slash, and none where the path ends in `..`. Which component it
/// gives of other paths (with a drive letter, backslashes or a leading double
/// slash) depends on the system and is left open; it is a part of the path, and
/// not empty.
#[verifier::external_body]
fn path_file_name(path: &str) -> (r: Option<String>)
    ensures
        may_be_file_name(opt_text(r), path@),
{
    let name = std::path::Path::new(path).file_name()?;
    let text = name.to_str()?;
    Some(text.to_string())
}

/// Whether an archive whose path has the file name `file_name` is one to take:
/// the name must end with `.tar.gz`.
pub fn check_archive_name(file_name: &Option<String>, path: &str) -> (r: Result<(), ConvertError>)
    ensures
        seen(r) == tar_gz_check(opt_text(*file_name), path@),
{
    match file_name {
        None => Err(ConvertError::InvalidArchiveName { path: path.to_string() }),
        Some(name) => {
            let v = chars_of(name.as_str());
            let suffix = chars_of(ARCHIVE_SUFFIX);
            if v.len() >= suffix.len() && matches_at(&v, &suffix, v.len() - suffix.len()) {
                Ok(())
            } else {
                Err(ConvertError::NotTarGz { path: path.to_string() })
            }
        },
    }
}

/// The file name of an archive without `.tar.gz`, which must not be all of it.
pub fn base_name_of(file_name: &Option<String>, path: &str) -> (r: Result<String, ConvertError>)
    ensures
        seen_text(r) == base_name(opt_text(*file_name), path@),
{
    match file_name {
        None => Err(ConvertError::InvalidArchiveName { path: path.to_string() }),
        Some(name) => {
            let v = chars_of(name.as_str());
            let suffix = chars_of(ARCHIVE_SUFFIX);
            if v.len() < suffix.len() || !matches_at(&v, &suffix, v.len() - suffix.len()) {
                return Err(ConvertError::NotTarGz { path: path.to_string() });
            }
            if v.len() == suffix.len() {
                return Err(ConvertError::EmptyBaseName { path: path.to_string() });
            }
            Ok(string_of(&v, 0, v.len() - suffix.len()))
        },
    }
}

/// Whether the file name at the end of `path` ends with `.tar.gz`.
pub fn ensure_tar_gz(path: &str) -> (r: Result<(), ConvertError>)
    ensures
        exists|name: Option<Seq<char>>|
            {
                &&& seen(r) == #[trigger] tar_gz_check(name, path@)
                &&& may_be_file_name(name, path@)
            },
{
    let name = path_file_name(path);
    let r = check_archive_name(&name, path);
    assert(seen(r) == tar_gz_check(opt_text(name), path@));
    r
}

/// The file name at the end of `path` without `.tar.gz`.
pub fn archive_base_name(path: &str) -> (r: Result<String, ConvertError>)
    ensures
        exists|name: Option<Seq<char>>|
            {
                &&& seen_text(r) == #[trigger] base_name(name, path@)
                &&& may_be_file_name(name, path@)
            },
{
    let name = path_file_name(path);
    let r = base_name_of(&name, path);
    assert(seen_text(r) == base_name(opt_text(name), path@));
    r
}

/// The base name under which the archive at `path` is converted. `is_file` says
/// whether there is a file at the path.
pub fn choose_archive(path: &str, is_file: bool) -> (r: Result<String, ConvertError>)
    ensures
        exists|name: Option<Seq<char>>|
            {
                &&& seen_text(r) == #[trigger] archive_choice(is_file, name, path@)
                &&& may_be_file_name(name, path@)
            },
{
    let name = path_file_name(path);
    let r = if !is_file {
        Err(ConvertError::ArchiveNotFound { path: path.to_string() })
    } else {
        match check_archive_name(&name, path) {
            Ok(()) => base_name_of(&name, path),
            Err(error) => Err(error),
        }
    };
    assert(seen_text(r) == archive_choice(is_file, opt_text(name), path@));
    r
}

} // verus!
