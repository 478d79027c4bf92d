//! Making the one HTML file that was generated the index page.

use vstd::prelude::*;

use crate::error::{ConvertError, ErrorView};
use crate::listing::{
    chosen_positions, entry_paths, entry_views, extension_of, files_with_extension, ints,
    is_file_with, lemma_chosen_inside, lemma_chosen_is, lemma_positions, paths_at, positions,
    DirEntry, EntryView,
};
use crate::text::{chars_of, lemma_last_char_last, same_chars};

verus! {

/// The name of the index page.
pub const INDEX_PAGE: &'static str = "index.html";

/// A step towards the index page.
#[derive(Clone, Copy, Debug, PartialEq, Eq)]
pub enum PageStep {
    /// Remove what stands in the place of the index page.
    RemoveIndex,
    /// Give the entry at this position the name of the index page.
    RenameToIndex(usize),
}

/// The steps after which the generated page is the index page.
pub open spec fn index_steps(
    output_dir: Seq<char>,
    entries: Seq<EntryView>,
    index_exists: bool,
) -> Result<Seq<PageStep>, ErrorView> {
    let pages = chosen_positions(entries, is_file_with("html"@));
    if pages.len() == 0 {
        Err(ErrorView::NoHtmlFile { dir: output_dir })
    } else if pages.len() > 1 {
        Err(ErrorView::SeveralHtmlFiles { paths: paths_at(entries, pages) })
    } else if entries[pages[0]].name == INDEX_PAGE@ {
        Ok(seq![])
    } else if index_exists {
        Ok(seq![PageStep::RemoveIndex, PageStep::RenameToIndex(pages[0] as usize)])
    } else {
        Ok(seq![PageStep::RenameToIndex(pages[0] as usize)])
    }
}

/// The steps of a result, with its error seen over sequences of characters.
pub open spec fn seen_steps(r: Result<Vec<PageStep>, ConvertError>) -> Result<
    Seq<PageStep>,
    ErrorView,
> {
    match r {
        Ok(steps) => Ok(steps@),
        Err(error) => Err(error@),
    }
}

/// Steps are seen as they are, and errors by their characters.
pub proof fn law_steps_are_seen_as_they_are(steps: Vec<PageStep>, error: ConvertError)
    ensures
        seen_steps(Ok(steps)) == Ok::<Seq<PageStep>, ErrorView>(steps@),
        seen_steps(Err(error)) == Err::<Seq<PageStep>, ErrorView>(error@),
{
}

/// The file that is given the name of the index page is an HTML file with
/// another name, and the only HTML file there is.
pub proof fn law_only_page_is_renamed(
    output_dir: Seq<char>,
    entries: Seq<EntryView>,
    index_exists: bool,
    i: int,
)
    requires
        entries.len() <= usize::MAX,
        0 <= i < entries.len(),
        index_steps(output_dir, entries, index_exists) matches Ok(steps) && steps.contains(
            PageStep::RenameToIndex(i as usize),
        ),
    ensures
        is_file_with("html"@)(entries[i]),
        entries[i].name != INDEX_PAGE@,
        forall|j: int|
            0 <= j < entries.len() && j != i ==> !is_file_with("html"@)(#[trigger] entries[j]),
{
    let flags = entries.map_values(is_file_with("html"@));
    let pages = chosen_positions(entries, is_file_with("html"@));
    lemma_positions(flags);
    assert(flags[pages[0]]);
    assert(pages[0] == i);
    assert forall|j: int| 0 <= j < entries.len() && j != i implies !is_file_with("html"@)(
        #[trigger] entries[j],
    ) by {
        if flags[j] {
            assert(pages.contains(j));
        }
    }
}

/// The steps remove the entry at position `j`.
pub open spec fn is_removed(before: Seq<EntryView>, steps: Seq<PageStep>, j: int) -> bool {
    &&& steps.contains(PageStep::RemoveIndex)
    &&& before[j].name == INDEX_PAGE@
    &&& !steps.contains(PageStep::RenameToIndex(j as usize))
}

/// The name that the entry at position `j` has once the steps were performed.
pub open spec fn name_after(before: Seq<EntryView>, steps: Seq<PageStep>, j: int) -> Seq<char> {
    if steps.contains(PageStep::RenameToIndex(j as usize)) {
        INDEX_PAGE@
    } else {
        before[j].name
    }
}

/// `after` lists, in any order, what the directory listed by `before` holds once
/// the steps were performed; `origin` says where each entry stood before.
pub open spec fn is_listing_after(
    before: Seq<EntryView>,
    steps: Seq<PageStep>,
    after: Seq<EntryView>,
    origin: Seq<int>,
) -> bool {
    &&& origin.len() == after.len()
    &&& origin.no_duplicates()
    &&& forall|j: int| #[trigger]
        origin.contains(j) <==> (0 <= j < before.len() && !is_removed(before, steps, j))
    &&& forall|k: int|
        0 <= k < after.len() ==> (#[trigger] after[k]).name == name_after(before, steps, origin[k])
            && after[k].is_file == before[origin[k]].is_file
}

/// A list with one position that holds `true` has one such position.
proof fn lemma_single_position(flags: Seq<bool>, at: int)
    requires
        0 <= at < flags.len(),
        forall|k: int| 0 <= k < flags.len() ==> #[trigger] flags[k] == (k == at),
    ensures
        positions(flags) == seq![at],
{
    lemma_positions(flags);
    let found = positions(flags);
    assert(flags[at]);
    assert(found.contains(at));
    assert forall|k: int| 0 <= k < found.len() implies #[trigger] found[k] == at by {
        assert(flags[found[k]]);
    }
    if found.len() > 1 {
        assert(found[0] < found[1]);
    }
    assert(found =~= seq![at]);
}

/// The index page has the extension of a page.
proof fn lemma_index_page_is_a_page()
    ensures
        extension_of(INDEX_PAGE@) == Some("html"@),
{
    reveal_strlit("index.html");
    reveal_strlit("html");
    lemma_last_char_last(INDEX_PAGE@, '.', 5);
    assert(INDEX_PAGE@.skip(6) =~= "html"@);
    assert(INDEX_PAGE@.len() == 10);
}

/// Once the steps were performed, the directory needs no more steps.
pub proof fn law_no_steps_are_left(
    output_dir: Seq<char>,
    before: Seq<EntryView>,
    index_existed: bool,
    after: Seq<EntryView>,
    origin: Seq<int>,
    index_exists: bool,
)
    requires
        before.len() <= usize::MAX,
        index_steps(output_dir, before, index_existed) matches Ok(steps) && is_listing_after(
            before,
            steps,
            after,
            origin,
        ),
    ensures
        index_steps(output_dir, after, index_exists) == Ok::<Seq<PageStep>, ErrorView>(seq![]),
{
    let steps = index_steps(output_dir, before, index_existed)->Ok_0;
    let is_page = is_file_with("html"@);
    let flags = before.map_values(is_page);
    let page = chosen_positions(before, is_page)[0];
    lemma_positions(flags);
    lemma_index_page_is_a_page();
    assert(flags[positions(flags)[0]]);
    assert(0 <= page < before.len() && is_page(before[page]));
    assert forall|j: int| 0 <= j < before.len() && j != page implies !is_page(
        #[trigger] before[j],
    ) by {
        if flags[j] {
            assert(positions(flags).contains(j));
        }
    }
    // Only the page can be renamed, and it bears the name of the index page afterwards.
    assert forall|j: int| 0 <= j < before.len() && j != page implies !#[trigger] steps.contains(
        PageStep::RenameToIndex(j as usize),
    ) by {}
    assert(before[page].name != INDEX_PAGE@ ==> steps.contains(
        PageStep::RenameToIndex(page as usize),
    )) by {
        if before[page].name != INDEX_PAGE@ {
            assert(steps.last() == PageStep::RenameToIndex(page as usize));
        }
    }
    assert(name_after(before, steps, page) == INDEX_PAGE@);
    assert(!is_removed(before, steps, page));
    assert(origin.contains(page));
    let at = origin.index_of(page);
    let flags_after = after.map_values(is_page);
    assert forall|k: int| 0 <= k < flags_after.len() implies #[trigger] flags_after[k] == (k
        == at) by {
        let j = origin[k];
        assert(origin.contains(j));
        assert(after[k].name == name_after(before, steps, j));
        if j == page {
            assert(k == at);
        } else {
            assert(!is_page(before[j]));
        }
    }
    lemma_single_position(flags_after, at);
    assert(after[at].name == INDEX_PAGE@);
}

/// The only file with the extension `html` becomes `index.html`: by no step where
/// it is, and else by renaming it, after what stands in the place was removed.
/// Where there is no such file, or where there are several, nothing is done, and
/// the paths of several are given in order. `at` are the positions of all these
/// files.
pub proof fn law_only_page_becomes_the_index_page(
    output_dir: Seq<char>,
    entries: Seq<EntryView>,
    at: Seq<int>,
)
    requires
        forall|i: int| #[trigger]
            at.contains(i) <==> (0 <= i < entries.len() && entries[i].is_file && extension_of(
                entries[i].name,
            ) == Some("html"@)),
        forall|k: int, m: int| 0 <= k < m < at.len() ==> at[k] < at[m],
    ensures
        forall|index_exists: bool|
            at.len() == 0 ==> #[trigger] index_steps(output_dir, entries, index_exists) == Err::<
                Seq<PageStep>,
                ErrorView,
            >(ErrorView::NoHtmlFile { dir: output_dir }),
        forall|index_exists: bool|
            at.len() > 1 ==> #[trigger] index_steps(output_dir, entries, index_exists) == Err::<
                Seq<PageStep>,
                ErrorView,
            >(
                ErrorView::SeveralHtmlFiles {
                    paths: Seq::new(at.len(), |k: int| entries[at[k]].path),
                },
            ),
        forall|index_exists: bool|
            at.len() == 1 && entries[at[0]].name == "index.html"@ ==> #[trigger] index_steps(
                output_dir,
                entries,
                index_exists,
            ) == Ok::<Seq<PageStep>, ErrorView>(seq![]),
        at.len() == 1 && entries[at[0]].name != "index.html"@ ==> index_steps(
            output_dir,
            entries,
            true,
        ) == Ok::<Seq<PageStep>, ErrorView>(
            seq![PageStep::RemoveIndex, PageStep::RenameToIndex(at[0] as usize)],
        ),
        at.len() == 1 && entries[at[0]].name != "index.html"@ ==> index_steps(
            output_dir,
            entries,
            false,
        ) == Ok::<Seq<PageStep>, ErrorView>(seq![PageStep::RenameToIndex(at[0] as usize)]),
{
    lemma_chosen_is(entries, is_file_with("html"@), at);
    assert(paths_at(entries, at) =~= Seq::new(at.len(), |k: int| entries[at[k]].path));
}

/// The steps after which the one HTML file among the entries of `output_dir` is
/// the index page. `index_exists` says whether anything stands in its place.
pub fn normalize_single_html(
    output_dir: &str,
    entries: &Vec<DirEntry>,
    index_exists: bool,
) -> (r: Result<Vec<PageStep>, ConvertError>)
    ensures
        seen_steps(r) == index_steps(output_dir@, entry_views(entries@), index_exists),
{
    let pages = files_with_extension(entries, "html");
    proof {
        lemma_chosen_inside(entries@, is_file_with("html"@), pages@);
    }
    if pages.len() == 0 {
        return Err(ConvertError::NoHtmlFile { dir: output_dir.to_string() });
    }
    if pages.len() > 1 {
        return Err(ConvertError::SeveralHtmlFiles { paths: entry_paths(entries, &pages) });
    }
    let page: usize = pages[0];
    assert(ints(pages@)[0] == page as int);
    let mut steps: Vec<PageStep> = Vec::new();
    if !same_chars(&chars_of(entries[page].name.as_str()), &chars_of(INDEX_PAGE)) {
        if index_exists {
            steps.push(PageStep::RemoveIndex);
        }
        steps.push(PageStep::RenameToIndex(page));
    }
    assert(seen_steps(Ok(steps)) == index_steps(output_dir@, entry_views(entries@), index_exists))
        by {
        assert(index_steps(output_dir@, entry_views(entries@), index_exists) matches Ok(expected)
            && steps@ =~= expected);
    }
    Ok(steps)
}

} // verus!
