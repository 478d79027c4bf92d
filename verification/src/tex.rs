//! Which TeX file of an archive is the main one.

use vstd::prelude::*;

use crate::error::{seen, seen_text, ConvertError, ErrorView};
use crate::listing::{
    chosen_positions, entry_paths, entry_views, extension_of, files_with_extension, ints,
    is_file_with, lemma_chosen_inside, lemma_chosen_is, lemma_positions, paths_at, DirEntry,
    EntryView,
};
use crate::text::texts;

verus! {

/// The main TeX file: the one with a conventional name, given by its place in
/// the list of names, or an entry of the unpacked archive, given by its position.
#[derive(Clone, Copy, Debug, PartialEq, Eq)]
pub enum MainTexFile {
    Conventional(usize),
    Found(usize),
}

/// The names under which the main file is looked for at the top of the archive,
/// in the order of preference.
pub open spec fn conventional_names() -> Seq<Seq<char>> {
    seq![
        "main.tex"@,
        "0-main.tex"@,
        "example_paper.tex"@,
        "paper.tex"@,
        "article.tex"@,
        "manuscript.tex"@,
        "ms.tex"@,
    ]
}

/// The first position at or after `i` that holds `true`.
pub open spec fn first_true(flags: Seq<bool>, i: int) -> Option<int>
    decreases flags.len() - i,
{
    if i >= flags.len() {
        None
    } else if flags[i] {
        Some(i)
    } else {
        first_true(flags, i + 1)
    }
}

/// The main TeX file of an archive unpacked in `work_dir`: the first
/// conventional name that is present at the top, and else the only TeX file
/// among all entries.
pub open spec fn main_tex_file(
    work_dir: Seq<char>,
    present: Seq<bool>,
    entries: Seq<EntryView>,
) -> Result<MainTexFile, ErrorView> {
    match first_true(present, 0) {
        Some(i) => Ok(MainTexFile::Conventional(i as usize)),
        None => {
            let found = chosen_positions(entries, is_file_with("tex"@));
            if found.len() == 0 {
                Err(ErrorView::NoTexFile { dir: work_dir })
            } else if found.len() == 1 {
                Ok(MainTexFile::Found(found[0] as usize))
            } else {
                Err(ErrorView::SeveralTexFiles { paths: paths_at(entries, found) })
            }
        },
    }
}

/// The TeX file that was asked for, if it is there.
pub open spec fn requested_file(
    path: Seq<char>,
    candidate: Seq<char>,
    is_file: bool,
) -> Result<Seq<char>, ErrorView> {
    if is_file {
        Ok(path)
    } else {
        Err(ErrorView::TexFileNotFound { path: candidate })
    }
}

/// The first `true` is found, and none comes before it.
proof fn lemma_first_true(flags: Seq<bool>, i: int)
    requires
        0 <= i,
    ensures
        match first_true(flags, i) {
            Some(k) => i <= k < flags.len() && flags[k] && forall|j: int|
                i <= j < k ==> !#[trigger] flags[j],
            None => forall|j: int| i <= j < flags.len() ==> !#[trigger] flags[j],
        },
    decreases flags.len() - i,
{
    if i < flags.len() && !flags[i] {
        lemma_first_true(flags, i + 1);
    }
}

/// A conventional name at the top of the archive decides, whatever else the
/// archive holds, and an earlier name takes precedence over a later one.
pub proof fn law_conventional_names_come_first(
    work_dir: Seq<char>,
    present: Seq<bool>,
    entries: Seq<EntryView>,
    i: int,
)
    requires
        present.len() == conventional_names().len(),
        0 <= i < present.len(),
        present[i],
        forall|j: int| 0 <= j < i ==> !#[trigger] present[j],
    ensures
        main_tex_file(work_dir, present, entries) == Ok::<MainTexFile, ErrorView>(
            MainTexFile::Conventional(i as usize),
        ),
{
    lemma_first_true(present, 0);
}

/// The file that is found among the entries is a TeX file, and the only one.
pub proof fn law_found_file_is_the_only_one(
    work_dir: Seq<char>,
    present: Seq<bool>,
    entries: Seq<EntryView>,
    i: int,
)
    requires
        entries.len() <= usize::MAX,
        0 <= i < entries.len(),
        main_tex_file(work_dir, present, entries) == Ok::<MainTexFile, ErrorView>(
            MainTexFile::Found(i as usize),
        ),
    ensures
        forall|j: int| 0 <= j < present.len() ==> !#[trigger] present[j],
        is_file_with("tex"@)(entries[i]),
        forall|j: int| 0 <= j < entries.len() && j != i ==> !is_file_with("tex"@)(#[trigger] entries[j]),
{
    lemma_first_true(present, 0);
    let flags = entries.map_values(is_file_with("tex"@));
    let found = chosen_positions(entries, is_file_with("tex"@));
    lemma_positions(flags);
    assert(flags[found[0]]);
    assert(found[0] == i);
    assert forall|j: int| 0 <= j < entries.len() && j != i implies !is_file_with("tex"@)(
        #[trigger] entries[j],
    ) by {
        if flags[j] {
            assert(found.contains(j));
        }
    }
}

/// The names that are looked for, the preferred ones first.
pub proof fn law_conventional_names()
    ensures
        conventional_names().len() == 7,
        conventional_names()[0] == "main.tex"@,
        conventional_names()[1] == "0-main.tex"@,
        conventional_names()[2] == "example_paper.tex"@,
        conventional_names()[3] == "paper.tex"@,
        conventional_names()[4] == "article.tex"@,
        conventional_names()[5] == "manuscript.tex"@,
        conventional_names()[6] == "ms.tex"@,
{
}

/// Where no conventional name is there, the only file with the extension `tex` is
/// the main one; where there is none, or where there are several, none is taken,
/// and the paths of several are given in order. `at` are the positions of all
/// these files.
pub proof fn law_only_tex_file_is_taken(
    work_dir: Seq<char>,
    present: Seq<bool>,
    entries: Seq<EntryView>,
    at: Seq<int>,
)
    requires
        forall|j: int| 0 <= j < present.len() ==> !#[trigger] present[j],
        forall|i: int| #[trigger]
            at.contains(i) <==> (0 <= i < entries.len() && entries[i].is_file && extension_of(
                entries[i].name,
            ) == Some("tex"@)),
        forall|k: int, m: int| 0 <= k < m < at.len() ==> at[k] < at[m],
    ensures
        at.len() == 0 ==> main_tex_file(work_dir, present, entries) == Err::<
            MainTexFile,
            ErrorView,
        >(ErrorView::NoTexFile { dir: work_dir }),
        at.len() == 1 ==> main_tex_file(work_dir, present, entries) == Ok::<
            MainTexFile,
            ErrorView,
        >(MainTexFile::Found(at[0] as usize)),
        at.len() > 1 ==> main_tex_file(work_dir, present, entries) == Err::<
            MainTexFile,
            ErrorView,
        >(
            ErrorView::SeveralTexFiles {
                paths: Seq::new(at.len(), |k: int| entries[at[k]].path),
            },
        ),
{
    lemma_first_true(present, 0);
    lemma_chosen_is(entries, is_file_with("tex"@), at);
    assert(paths_at(entries, at) =~= Seq::new(at.len(), |k: int| entries[at[k]].path));
}

/// A TeX file that was asked for is taken as it was asked for where it is there,
/// and else refused with the path where it was looked for.
pub proof fn law_requested_file(path: Seq<char>, candidate: Seq<char>)
    ensures
        requested_file(path, candidate, true) == Ok::<Seq<char>, ErrorView>(path),
        requested_file(path, candidate, false) == Err::<Seq<char>, ErrorView>(
            ErrorView::TexFileNotFound { path: candidate },
        ),
{
}

/// The names under which the main file is looked for at the top of the archive,
/// in the order of preference.
pub fn conventional_file_names() -> (r: Vec<String>)
    ensures
        texts(r@) == conventional_names(),
{
    let mut names: Vec<String> = Vec::new();
    names.push("main.tex".to_string());
    names.push("0-main.tex".to_string());
    names.push("example_paper.tex".to_string());
    names.push("paper.tex".to_string());
    names.push("article.tex".to_string());
    names.push("manuscript.tex".to_string());
    names.push("ms.tex".to_string());
    assert(texts(names@) =~= conventional_names());
    names
}

/// The main TeX file of an archive unpacked in `work_dir`. `present` says for each
/// conventional name whether there is a file of that name at the top; `entries`
/// are all entries of the unpacked archive, and matter only where there is none.
pub fn find_main_tex_file(
    work_dir: &str,
    present: &Vec<bool>,
    entries: &Vec<DirEntry>,
) -> (r: Result<MainTexFile, ConvertError>)
    requires
        present@.len() == conventional_names().len(),
    ensures
        seen(r) == main_tex_file(work_dir@, present@, entry_views(entries@)),
{
    let mut i: usize = 0;
    while i < present.len()
        invariant
            i <= present@.len(),
            first_true(present@, 0) == first_true(present@, i as int),
        decreases present@.len() - i,
    {
        if present[i] {
            return Ok(MainTexFile::Conventional(i));
        }
        i += 1;
    }
    let found = files_with_extension(entries, "tex");
    proof {
        lemma_chosen_inside(entries@, is_file_with("tex"@), found@);
    }
    if found.len() == 0 {
        Err(ConvertError::NoTexFile { dir: work_dir.to_string() })
    } else if found.len() == 1 {
        assert(ints(found@)[0] == found@[0] as int);
        Ok(MainTexFile::Found(found[0]))
    } else {
        Err(ConvertError::SeveralTexFiles { paths: entry_paths(entries, &found) })
    }
}

/// The TeX file `path` that was asked for. `candidate` is where it should lie,
/// and `is_file` whether there is a file.
pub fn requested_tex_file(path: &str, candidate: &str, is_file: bool) -> (r: Result<
    String,
    ConvertError,
>)
    ensures
        seen_text(r) == requested_file(path@, candidate@, is_file),
{
    if is_file {
        Ok(path.to_string())
    } else {
        Err(ConvertError::TexFileNotFound { path: candidate.to_string() })
    }
}

} // verus!
