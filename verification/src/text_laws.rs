//! What the searches of a text find, said character by character.

use vstd::prelude::*;

use crate::text::{
    contains, ends_with, find, find_char, last_char, lemma_find, lemma_find_char, lemma_last_char,
    lemma_occurs_chars, occurs_at, opt_text, position, starts_with, texts,
};

verus! {

/// The characters of `pat` stand in `text` one behind the other from position `i` on.
pub open spec fn stands_at(text: Seq<char>, pat: Seq<char>, i: int) -> bool {
    &&& 0 <= i
    &&& i + pat.len() <= text.len()
    &&& forall|k: int| 0 <= k < pat.len() ==> text[i + k] == #[trigger] pat[k]
}

/// `pat` stands in `text` at position `at`, and at none in front of it.
pub open spec fn stands_first(text: Seq<char>, pat: Seq<char>, at: int) -> bool {
    &&& stands_at(text, pat, at)
    &&& forall|j: int| 0 <= j < at ==> !#[trigger] stands_at(text, pat, j)
}

/// `pat` stands nowhere in `text`.
pub open spec fn is_absent(text: Seq<char>, pat: Seq<char>) -> bool {
    forall|j: int| !#[trigger] stands_at(text, pat, j)
}

/// To stand at a position is to occur at it.
pub proof fn lemma_stands_at(text: Seq<char>, pat: Seq<char>, i: int)
    ensures
        stands_at(text, pat, i) == occurs_at(text, pat, i),
{
    lemma_occurs_chars(text, pat, i);
}

/// A search finds the first position at or after `from` from which on the
/// characters of the pattern stand, and finds none only where there is none.
pub proof fn law_search_finds_the_first_place(text: Seq<char>, pat: Seq<char>, from: int)
    requires
        0 <= from,
    ensures
        match find(text, pat, from) {
            Some(i) => {
                &&& from <= i
                &&& stands_at(text, pat, i)
                &&& forall|j: int| from <= j < i ==> !#[trigger] stands_at(text, pat, j)
            },
            None => forall|j: int| from <= j ==> !#[trigger] stands_at(text, pat, j),
        },
{
    lemma_find(text, pat, from);
    assert forall|j: int| #[trigger] stands_at(text, pat, j) == occurs_at(text, pat, j) by {
        lemma_stands_at(text, pat, j);
    }
}

/// A search for a character finds its first place at or after `from`, and a
/// search from the end its last place; they find none only where there is none.
pub proof fn law_character_is_found(text: Seq<char>, c: char, from: int)
    requires
        0 <= from,
    ensures
        match find_char(text, c, from) {
            Some(i) => {
                &&& from <= i < text.len()
                &&& text[i] == c
                &&& forall|j: int| from <= j < i ==> #[trigger] text[j] != c
            },
            None => forall|j: int| from <= j < text.len() ==> #[trigger] text[j] != c,
        },
        match last_char(text, c) {
            Some(i) => {
                &&& 0 <= i < text.len()
                &&& text[i] == c
                &&& forall|j: int| i < j < text.len() ==> #[trigger] text[j] != c
            },
            None => forall|j: int| 0 <= j < text.len() ==> #[trigger] text[j] != c,
        },
{
    lemma_find_char(text, c, from);
    lemma_last_char(text, c);
}

/// Strings are seen by their characters, one by one and in lists.
pub proof fn law_strings_are_seen_by_their_characters(s: String, v: Seq<String>, i: usize)
    ensures
        opt_text(Some(s)) == Some(s@),
        opt_text(None) is None,
        texts(v).len() == v.len(),
        forall|k: int| 0 <= k < v.len() ==> #[trigger] texts(v)[k] == v[k]@,
        position(Some(i)) == Some(i as int),
        position(None) is None,
{
}

/// A text holds a pattern where it is made of something, the pattern, and
/// something; it begins and ends with one where the first or the last is empty.
pub proof fn law_parts_of_a_text(before: Seq<char>, pat: Seq<char>, after: Seq<char>)
    ensures
        contains(before + pat + after, pat),
        starts_with(pat + after, pat),
        ends_with(before + pat, pat),
{
    let text = before + pat + after;
    assert(stands_at(text, pat, before.len() as int));
    lemma_stands_at(text, pat, before.len() as int);
    lemma_find(text, pat, 0);
    assert(stands_at(pat + after, pat, 0));
    lemma_stands_at(pat + after, pat, 0);
    assert(stands_at(before + pat, pat, before.len() as int));
    lemma_stands_at(before + pat, pat, before.len() as int);
}

/// A text that holds a pattern, or begins or ends with it, is made of it and
/// what stands around it.
pub proof fn law_text_is_made_of_its_parts(text: Seq<char>, pat: Seq<char>)
    ensures
        contains(text, pat) ==> exists|i: int| #[trigger] stands_at(text, pat, i),
        starts_with(text, pat) ==> text == pat + text.skip(pat.len() as int),
        ends_with(text, pat) ==> text == text.take(text.len() - pat.len()) + pat,
{
    law_search_finds_the_first_place(text, pat, 0);
    let end = text.len() - pat.len();
    if starts_with(text, pat) {
        lemma_stands_at(text, pat, 0);
        assert forall|k: int| 0 <= k < pat.len() implies text[k] == #[trigger] pat[k] by {
            assert(text[0 + k] == pat[k]);
        }
        assert(text =~= pat + text.skip(pat.len() as int));
    }
    if ends_with(text, pat) {
        lemma_stands_at(text, pat, end);
        assert forall|k: int| end <= k < text.len() implies #[trigger] text[k] == pat[k - end] by {
            assert(text[end + (k - end)] == pat[k - end]);
        }
        assert(text =~= text.take(end) + pat);
    }
}

} // verus!
