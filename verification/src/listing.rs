//! The entries of a directory, and those with a given file name extension.

use vstd::prelude::*;

use crate::text::{
    chars_of, find_last_char, last_char, lemma_last_char, lemma_last_char_last, opt_text,
    same_chars, string_of, texts,
};

verus! {

/// An entry of a directory: its file name, the path that it is shown by, and
/// whether it is a file.
pub struct DirEntry {
    pub name: String,
    pub path: String,
    pub is_file: bool,
}

/// An entry over sequences of characters.
pub struct EntryView {
    pub name: Seq<char>,
    pub path: Seq<char>,
    pub is_file: bool,
}

impl View for DirEntry {
    type V = EntryView;

    open spec fn view(&self) -> EntryView {
        EntryView { name: self.name@, path: self.path@, is_file: self.is_file }
    }
}

/// The entries of a directory over sequences of characters.
pub open spec fn entry_views(entries: Seq<DirEntry>) -> Seq<EntryView> {
    entries.map_values(|e: DirEntry| e@)
}

/// The extension of a file name: what follows its last point, unless the name
/// holds no point, or only the one that it begins with, or is `..`.
pub open spec fn extension_of(name: Seq<char>) -> Option<Seq<char>> {
    match last_char(name, '.') {
        Some(point) => if point == 0 || name == seq!['.', '.'] {
            None
        } else {
            Some(name.skip(point + 1))
        },
        None => None,
    }
}

/// The positions that hold `true`, in order.
pub open spec fn positions(flags: Seq<bool>) -> Seq<int>
    decreases flags.len(),
{
    if flags.len() == 0 {
        seq![]
    } else if flags.last() {
        positions(flags.drop_last()).push(flags.len() - 1)
    } else {
        positions(flags.drop_last())
    }
}

/// Indices as mathematical integers.
pub open spec fn ints(v: Seq<usize>) -> Seq<int> {
    v.map_values(|i: usize| i as int)
}

/// The positions of the entries that satisfy `chosen`, in order.
pub open spec fn chosen_positions(
    entries: Seq<EntryView>,
    chosen: spec_fn(EntryView) -> bool,
) -> Seq<int> {
    positions(entries.map_values(chosen))
}

/// A file with the extension `ext`.
pub open spec fn is_file_with(ext: Seq<char>) -> spec_fn(EntryView) -> bool {
    |e: EntryView| e.is_file && extension_of(e.name) == Some(ext)
}

/// An entry, file or not, with the extension `ext`.
pub open spec fn is_entry_with(ext: Seq<char>) -> spec_fn(EntryView) -> bool {
    |e: EntryView| extension_of(e.name) == Some(ext)
}

/// The extensions of the files that a run of make4ht leaves behind.
pub open spec fn intermediate_extensions() -> Seq<Seq<char>> {
    seq![
        "aux"@,
        "log"@,
        "xref"@,
        "4ct"@,
        "4tc"@,
        "lg"@,
        "tmp"@,
        "dvi"@,
        "idv"@,
        "out"@,
    ]
}

/// A file that a run of make4ht leaves behind.
pub open spec fn is_intermediate() -> spec_fn(EntryView) -> bool {
    |e: EntryView|
        e.is_file && (extension_of(e.name) matches Some(ext)
            && intermediate_extensions().contains(ext))
}

/// The paths of the entries at the given positions.
pub open spec fn paths_at(entries: Seq<EntryView>, at: Seq<int>) -> Seq<Seq<char>> {
    at.map_values(|i: int| entries[i].path)
}

/// The positions found are those that hold `true`, each once, in ascending order.
pub proof fn lemma_positions(flags: Seq<bool>)
    ensures
        forall|k: int|
            0 <= k < positions(flags).len() ==> 0 <= #[trigger] positions(flags)[k] < flags.len()
                && flags[positions(flags)[k]],
        forall|k: int, m: int|
            0 <= k < m < positions(flags).len() ==> positions(flags)[k] < positions(flags)[m],
        forall|i: int| 0 <= i < flags.len() && flags[i] ==> #[trigger] positions(flags).contains(i),
    decreases flags.len(),
{
    if flags.len() > 0 {
        let init = flags.drop_last();
        let last = flags.len() - 1;
        lemma_positions(init);
        assert forall|k: int| 0 <= k < positions(flags).len() implies 0 <= #[trigger] positions(
            flags,
        )[k] < flags.len() && flags[positions(flags)[k]] by {
            if k < positions(init).len() {
                assert(positions(flags)[k] == positions(init)[k]);
                assert(init[positions(init)[k]]);
            }
        }
        assert forall|k: int, m: int| 0 <= k < m < positions(flags).len() implies positions(
            flags,
        )[k] < positions(flags)[m] by {
            assert(positions(flags)[k] == positions(init)[k]);
            if m < positions(init).len() {
                assert(positions(flags)[m] == positions(init)[m]);
            }
        }
        assert forall|i: int| 0 <= i < flags.len() && flags[i] implies #[trigger] positions(
            flags,
        ).contains(i) by {
            if i < last {
                assert(init[i]);
                assert(positions(init).contains(i));
                let k = choose|k: int| 0 <= k < positions(init).len() && positions(init)[k] == i;
                assert(positions(flags)[k] == i);
            } else {
                assert(positions(flags)[positions(init).len() as int] == i);
            }
        }
    }
}

/// The positions that a choice of entries gives lie inside the listing.
pub proof fn lemma_chosen_inside(
    entries: Seq<DirEntry>,
    chosen: spec_fn(EntryView) -> bool,
    at: Seq<usize>,
)
    requires
        ints(at) == chosen_positions(entry_views(entries), chosen),
    ensures
        forall|k: int|
            0 <= k < at.len() ==> (#[trigger] at[k]) < entries.len() && chosen(
                entries[at[k] as int]@,
            ),
{
    let flags = entry_views(entries).map_values(chosen);
    lemma_positions(flags);
    assert forall|k: int| 0 <= k < at.len() implies (#[trigger] at[k]) < entries.len() && chosen(
        entries[at[k] as int]@,
    ) by {
        assert(ints(at)[k] == at[k] as int);
        assert(flags[positions(flags)[k]]);
    }
}

/// Once the intermediate files were removed, there are none left: a listing of
/// entries that were kept, in any order, gives none.
pub proof fn law_no_intermediate_files_are_left(before: Seq<EntryView>, after: Seq<EntryView>)
    requires
        forall|k: int|
            0 <= k < after.len() ==> exists|j: int|
                0 <= j < before.len() && #[trigger] before[j] == #[trigger] after[k]
                    && !chosen_positions(before, is_intermediate()).contains(j),
    ensures
        chosen_positions(after, is_intermediate()) == Seq::<int>::empty(),
{
    let flags = before.map_values(is_intermediate());
    let flags_after = after.map_values(is_intermediate());
    lemma_positions(flags);
    lemma_positions(flags_after);
    let found = positions(flags_after);
    if found.len() > 0 {
        let k = found[0];
        assert(flags_after[found[0]]);
        let j = choose|j: int|
            0 <= j < before.len() && #[trigger] before[j] == after[k] && !positions(flags).contains(j);
        assert(flags[j]);
    }
    assert(found =~= seq![]);
}

/// The extension of a file name is what stands behind its last point, where
/// something stands in front of that; `..` has none.
pub proof fn law_extension_of_a_name(stem: Seq<char>, ext: Seq<char>)
    requires
        stem.len() > 0,
        !ext.contains('.'),
    ensures
        stem.push('.') + ext != seq!['.', '.'] ==> extension_of(stem.push('.') + ext) == Some(ext),
        extension_of(seq!['.', '.']) is None,
{
    let name = stem.push('.') + ext;
    let point = stem.len() as int;
    assert forall|j: int| point < j < name.len() implies #[trigger] name[j] != '.' by {
        assert(name[j] == ext[j - point - 1]);
        assert(ext.contains(ext[j - point - 1]));
    }
    lemma_last_char_last(name, '.', point);
    assert(name.skip(point + 1) =~= ext);
}

/// A file name without a point, or with none but the one that it begins with, has
/// no extension.
pub proof fn law_name_without_extension(name: Seq<char>)
    requires
        !name.contains('.'),
    ensures
        extension_of(name) is None,
        extension_of(seq!['.'] + name) is None,
{
    lemma_last_char(name, '.');
    let hidden = seq!['.'] + name;
    assert forall|j: int| 0 < j < hidden.len() implies #[trigger] hidden[j] != '.' by {
        assert(hidden[j] == name[j - 1]);
        assert(name.contains(name[j - 1]));
    }
    lemma_last_char_last(hidden, '.', 0);
}

/// The entries of a directory are seen in turn, each by its name, its path and
/// whether it is a file; positions are seen as numbers.
pub proof fn law_entries_are_seen_in_turn(entries: Seq<DirEntry>, at: Seq<usize>)
    ensures
        entry_views(entries).len() == entries.len(),
        forall|k: int|
            0 <= k < entries.len() ==> (#[trigger] entry_views(entries)[k]).name
                == entries[k].name@ && entry_views(entries)[k].path == entries[k].path@
                && entry_views(entries)[k].is_file == entries[k].is_file,
        ints(at).len() == at.len(),
        forall|k: int| 0 <= k < at.len() ==> #[trigger] ints(at)[k] == at[k],
{
}

/// The files with an extension are found at their positions, in order: each file
/// whose name has that extension, and no other entry.
pub proof fn law_files_with_an_extension(entries: Seq<EntryView>, ext: Seq<char>)
    ensures
        ({
            let at = chosen_positions(entries, is_file_with(ext));
            &&& forall|i: int| #[trigger]
                at.contains(i) <==> (0 <= i < entries.len() && entries[i].is_file && extension_of(
                    entries[i].name,
                ) == Some(ext))
            &&& forall|k: int, m: int| 0 <= k < m < at.len() ==> at[k] < at[m]
        }),
{
    lemma_chosen(entries, is_file_with(ext));
}

/// The logs are found at their positions, in order: each entry whose name has the
/// extension `log`, and no other.
pub proof fn law_logs(entries: Seq<EntryView>)
    ensures
        ({
            let at = chosen_positions(entries, is_entry_with("log"@));
            &&& forall|i: int| #[trigger]
                at.contains(i) <==> (0 <= i < entries.len() && extension_of(entries[i].name)
                    == Some("log"@))
            &&& forall|k: int, m: int| 0 <= k < m < at.len() ==> at[k] < at[m]
        }),
{
    lemma_chosen(entries, is_entry_with("log"@));
}

/// The files to remove are found at their positions, in order: each file whose
/// name has one of the ten extensions of intermediate files, and no other entry.
/// A file with any other extension, or with none, is kept.
pub proof fn law_intermediate_files(entries: Seq<EntryView>)
    ensures
        ({
            let at = chosen_positions(entries, is_intermediate());
            &&& forall|i: int| #[trigger]
                at.contains(i) <==> (0 <= i < entries.len() && entries[i].is_file && {
                    let ext = extension_of(entries[i].name);
                    ||| ext == Some("aux"@)
                    ||| ext == Some("log"@)
                    ||| ext == Some("xref"@)
                    ||| ext == Some("4ct"@)
                    ||| ext == Some("4tc"@)
                    ||| ext == Some("lg"@)
                    ||| ext == Some("tmp"@)
                    ||| ext == Some("dvi"@)
                    ||| ext == Some("idv"@)
                    ||| ext == Some("out"@)
                })
            &&& forall|k: int, m: int| 0 <= k < m < at.len() ==> at[k] < at[m]
        }),
{
    lemma_chosen(entries, is_intermediate());
    let all = intermediate_extensions();
    assert(all[0] == "aux"@ && all[1] == "log"@ && all[2] == "xref"@ && all[3] == "4ct"@ && all[4]
        == "4tc"@ && all[5] == "lg"@ && all[6] == "tmp"@ && all[7] == "dvi"@ && all[8] == "idv"@
        && all[9] == "out"@);
}

/// A file `stem.ext` is kept unless `ext` is one of the ten extensions.
pub proof fn law_other_files_are_kept(
    entries: Seq<EntryView>,
    i: int,
    stem: Seq<char>,
    ext: Seq<char>,
)
    requires
        0 <= i < entries.len(),
        entries[i].name == stem.push('.') + ext,
        stem.len() > 0,
        !ext.contains('.'),
        ext != "aux"@ && ext != "log"@ && ext != "xref"@ && ext != "4ct"@ && ext != "4tc"@ && ext
            != "lg"@ && ext != "tmp"@ && ext != "dvi"@ && ext != "idv"@ && ext != "out"@,
    ensures
        !chosen_positions(entries, is_intermediate()).contains(i),
{
    law_intermediate_files(entries);
    law_extension_of_a_name(stem, ext);
}

/// The entries chosen are those that satisfy the choice, each once, in order.
pub proof fn lemma_chosen(entries: Seq<EntryView>, chosen: spec_fn(EntryView) -> bool)
    ensures
        ({
            let at = chosen_positions(entries, chosen);
            &&& forall|i: int| #[trigger]
                at.contains(i) <==> (0 <= i < entries.len() && chosen(entries[i]))
            &&& forall|k: int, m: int| 0 <= k < m < at.len() ==> at[k] < at[m]
        }),
{
    let flags = entries.map_values(chosen);
    let at = chosen_positions(entries, chosen);
    lemma_positions(flags);
    assert forall|i: int| #[trigger]
        at.contains(i) implies 0 <= i < entries.len() && chosen(entries[i]) by {
        let k = choose|k: int| 0 <= k < at.len() && at[k] == i;
        assert(flags[positions(flags)[k]]);
    }
    assert forall|i: int| 0 <= i < entries.len() && chosen(entries[i]) implies #[trigger]
        at.contains(i) by {
        assert(flags[i]);
    }
}

/// A list of positions in order, of all entries that satisfy the choice and of no
/// others, is the list of the chosen ones.
pub proof fn lemma_chosen_is(
    entries: Seq<EntryView>,
    chosen: spec_fn(EntryView) -> bool,
    at: Seq<int>,
)
    requires
        forall|i: int| #[trigger]
            at.contains(i) <==> (0 <= i < entries.len() && chosen(entries[i])),
        forall|k: int, m: int| 0 <= k < m < at.len() ==> at[k] < at[m],
    ensures
        chosen_positions(entries, chosen) == at,
{
    lemma_chosen(entries, chosen);
    lemma_same_in_order(chosen_positions(entries, chosen), at);
}

/// Two lists in ascending order that hold the same numbers are the same.
proof fn lemma_same_in_order(a: Seq<int>, b: Seq<int>)
    requires
        forall|i: int| #[trigger] a.contains(i) <==> b.contains(i),
        forall|k: int, m: int| 0 <= k < m < a.len() ==> a[k] < a[m],
        forall|k: int, m: int| 0 <= k < m < b.len() ==> b[k] < b[m],
    ensures
        a == b,
    decreases a.len(),
{
    if a.len() == 0 {
        if b.len() > 0 {
            assert(b.contains(b[0]));
            assert(a.contains(b[0]));
        }
        assert(a =~= b);
    } else {
        assert(a.contains(a.last()));
        assert(b.contains(a.last()));
        assert(b.contains(b.last()));
        assert(a.contains(b.last()));
        let k = choose|k: int| 0 <= k < a.len() && a[k] == b.last();
        let m = choose|m: int| 0 <= m < b.len() && b[m] == a.last();
        assert(a.last() == b.last());
        let x = a.drop_last();
        let y = b.drop_last();
        assert forall|i: int| #[trigger] x.contains(i) <==> y.contains(i) by {
            if x.contains(i) {
                let p = choose|p: int| 0 <= p < x.len() && x[p] == i;
                assert(a[p] == i);
                assert(a.contains(i));
                assert(b.contains(i));
                let q = choose|q: int| 0 <= q < b.len() && b[q] == i;
                assert(y[q] == i);
            }
            if y.contains(i) {
                let p = choose|p: int| 0 <= p < y.len() && y[p] == i;
                assert(b[p] == i);
                assert(b.contains(i));
                assert(a.contains(i));
                let q = choose|q: int| 0 <= q < a.len() && a[q] == i;
                assert(x[q] == i);
            }
        }
        lemma_same_in_order(x, y);
        assert(a =~= x.push(a.last()));
        assert(b =~= y.push(b.last()));
    }
}

/// The extension of a file name.
pub fn file_extension(name: &str) -> (r: Option<String>)
    ensures
        opt_text(r) == extension_of(name@),
{
    let v = chars_of(name);
    let len: usize = v.len();
    proof {
        lemma_last_char(name@, '.');
    }
    match find_last_char(&v, '.') {
        None => None,
        Some(point) => {
            if point == 0 || same_chars(&v, &vec!['.', '.']) {
                None
            } else {
                assert(v@.skip(point + 1) =~= v@.subrange(point + 1, v@.len() as int));
                Some(string_of(&v, point + 1, len))
            }
        },
    }
}

/// Whether the file name `name` has the extension `ext`.
pub fn has_extension(name: &str, ext: &str) -> (r: bool)
    ensures
        r == (extension_of(name@) == Some(ext@)),
{
    match file_extension(name) {
        Some(found) => same_chars(&chars_of(found.as_str()), &chars_of(ext)),
        None => false,
    }
}

/// The positions chosen among one entry more.
proof fn lemma_chosen_step(
    entries: Seq<DirEntry>,
    chosen: spec_fn(EntryView) -> bool,
    i: int,
)
    requires
        0 <= i < entries.len(),
    ensures
        chosen_positions(entry_views(entries.take(i + 1)), chosen) == if chosen(entries[i]@) {
            chosen_positions(entry_views(entries.take(i)), chosen).push(i)
        } else {
            chosen_positions(entry_views(entries.take(i)), chosen)
        },
{
    let flags = entry_views(entries.take(i + 1)).map_values(chosen);
    assert(flags.drop_last() =~= entry_views(entries.take(i)).map_values(chosen));
    assert(flags.last() == chosen(entries[i]@));
}

/// The positions of the files with the extension `ext`, in order.
pub fn files_with_extension(entries: &Vec<DirEntry>, ext: &str) -> (r: Vec<usize>)
    ensures
        ints(r@) == chosen_positions(entry_views(entries@), is_file_with(ext@)),
{
    let mut out: Vec<usize> = Vec::new();
    let mut i: usize = 0;
    assert(ints(out@) =~= chosen_positions(entry_views(entries@.take(0)), is_file_with(ext@)));
    while i < entries.len()
        invariant
            i <= entries@.len(),
            ints(out@) == chosen_positions(
                entry_views(entries@.take(i as int)),
                is_file_with(ext@),
            ),
        decreases entries@.len() - i,
    {
        proof {
            lemma_chosen_step(entries@, is_file_with(ext@), i as int);
        }
        if entries[i].is_file && has_extension(entries[i].name.as_str(), ext) {
            let ghost before = out@;
            out.push(i);
            assert(ints(out@) =~= ints(before).push(i as int));
        }
        i += 1;
    }
    assert(entries@.take(entries@.len() as int) =~= entries@);
    out
}

/// The positions of the LaTeX logs, in order.
pub fn log_files(entries: &Vec<DirEntry>) -> (r: Vec<usize>)
    ensures
        ints(r@) == chosen_positions(entry_views(entries@), is_entry_with("log"@)),
{
    let mut out: Vec<usize> = Vec::new();
    let mut i: usize = 0;
    assert(ints(out@) =~= chosen_positions(entry_views(entries@.take(0)), is_entry_with("log"@)));
    while i < entries.len()
        invariant
            i <= entries@.len(),
            ints(out@) == chosen_positions(
                entry_views(entries@.take(i as int)),
                is_entry_with("log"@),
            ),
        decreases entries@.len() - i,
    {
        proof {
            lemma_chosen_step(entries@, is_entry_with("log"@), i as int);
        }
        if has_extension(entries[i].name.as_str(), "log") {
            let ghost before = out@;
            out.push(i);
            assert(ints(out@) =~= ints(before).push(i as int));
        }
        i += 1;
    }
    assert(entries@.take(entries@.len() as int) =~= entries@);
    out
}

/// Whether `name` is the name of a file that a run of make4ht leaves behind.
fn has_intermediate_extension(name: &str) -> (r: bool)
    ensures
        r == (extension_of(name@) matches Some(ext) && intermediate_extensions().contains(ext)),
{
    let r = has_extension(name, "aux") || has_extension(name, "log") || has_extension(name, "xref")
        || has_extension(name, "4ct") || has_extension(name, "4tc") || has_extension(name, "lg")
        || has_extension(name, "tmp") || has_extension(name, "dvi") || has_extension(name, "idv")
        || has_extension(name, "out");
    proof {
        let all = intermediate_extensions();
        assert(all[0] == "aux"@ && all[1] == "log"@ && all[2] == "xref"@ && all[3] == "4ct"@
            && all[4] == "4tc"@ && all[5] == "lg"@ && all[6] == "tmp"@ && all[7] == "dvi"@
            && all[8] == "idv"@ && all[9] == "out"@);
    }
    r
}

/// The positions of the files to remove after a run of make4ht, in order.
pub fn intermediate_files(entries: &Vec<DirEntry>) -> (r: Vec<usize>)
    ensures
        ints(r@) == chosen_positions(entry_views(entries@), is_intermediate()),
        forall|i: int| #[trigger]
            ints(r@).contains(i) <==> (0 <= i < entries@.len() && entries@[i].is_file && {
                let ext = extension_of(entries@[i].name@);
                ||| ext == Some("aux"@)
                ||| ext == Some("log"@)
                ||| ext == Some("xref"@)
                ||| ext == Some("4ct"@)
                ||| ext == Some("4tc"@)
                ||| ext == Some("lg"@)
                ||| ext == Some("tmp"@)
                ||| ext == Some("dvi"@)
                ||| ext == Some("idv"@)
                ||| ext == Some("out"@)
            }),
{
    proof {
        law_intermediate_files(entry_views(entries@));
    }
    let mut out: Vec<usize> = Vec::new();
    let mut i: usize = 0;
    assert(ints(out@) =~= chosen_positions(entry_views(entries@.take(0)), is_intermediate()));
    while i < entries.len()
        invariant
            i <= entries@.len(),
            ints(out@) == chosen_positions(
                entry_views(entries@.take(i as int)),
                is_intermediate(),
            ),
        decreases entries@.len() - i,
    {
        proof {
            lemma_chosen_step(entries@, is_intermediate(), i as int);
        }
        if entries[i].is_file && has_intermediate_extension(entries[i].name.as_str()) {
            let ghost before = out@;
            out.push(i);
            assert(ints(out@) =~= ints(before).push(i as int));
        }
        i += 1;
    }
    assert(entries@.take(entries@.len() as int) =~= entries@);
    out
}

/// The paths of the entries at the given positions.
pub fn entry_paths(entries: &Vec<DirEntry>, at: &Vec<usize>) -> (r: Vec<String>)
    requires
        forall|k: int| 0 <= k < at@.len() ==> (#[trigger] at@[k]) < entries@.len(),
    ensures
        texts(r@) == paths_at(entry_views(entries@), ints(at@)),
{
    let mut out: Vec<String> = Vec::new();
    let mut k: usize = 0;
    while k < at.len()
        invariant
            k <= at@.len(),
            forall|m: int| 0 <= m < at@.len() ==> (#[trigger] at@[m]) < entries@.len(),
            out@.len() == k,
            forall|m: int|
                0 <= m < k ==> (#[trigger] out@[m])@ == entries@[at@[m] as int].path@,
        decreases at@.len() - k,
    {
        let path = entries[at[k]].path.clone();
        out.push(path);
        k += 1;
    }
    assert(texts(out@) =~= paths_at(entry_views(entries@), ints(at@))) by {
        assert forall|m: int| 0 <= m < out@.len() implies #[trigger] texts(out@)[m] == paths_at(
            entry_views(entries@),
            ints(at@),
        )[m] by {
            assert(out@[m]@ == entries@[at@[m] as int].path@);
            assert(ints(at@)[m] == at@[m] as int);
        }
    }
    out
}

} // verus!
