//! Strings as sequences of characters: searching, slicing and assembling.

use vstd::prelude::*;

verus! {

/// `String::push` appends one character to the end of the string.
pub assume_specification[ String::push ](s: &mut String, c: char)
    ensures
        final(s)@ == old(s)@.push(c),
;

/// `pat` occurs in `text` at position `i`.
pub open spec fn occurs_at(text: Seq<char>, pat: Seq<char>, i: int) -> bool {
    &&& 0 <= i
    &&& i + pat.len() <= text.len()
    &&& text.subrange(i, i + pat.len()) == pat
}

/// The first position at or after `from` at which `pat` occurs in `text`.
pub open spec fn find(text: Seq<char>, pat: Seq<char>, from: int) -> Option<int>
    decreases text.len() - from + 1,
{
    if from + pat.len() > text.len() {
        None
    } else if occurs_at(text, pat, from) {
        Some(from)
    } else {
        find(text, pat, from + 1)
    }
}

/// The first position at or after `from` that holds the character `c`.
pub open spec fn find_char(text: Seq<char>, c: char, from: int) -> Option<int>
    decreases text.len() - from,
{
    if from >= text.len() {
        None
    } else if text[from] == c {
        Some(from)
    } else {
        find_char(text, c, from + 1)
    }
}

/// The last position that holds the character `c`.
pub open spec fn last_char(text: Seq<char>, c: char) -> Option<int>
    decreases text.len(),
{
    if text.len() == 0 {
        None
    } else if text.last() == c {
        Some(text.len() - 1)
    } else {
        last_char(text.drop_last(), c)
    }
}

/// `pat` occurs somewhere in `text`.
pub open spec fn contains(text: Seq<char>, pat: Seq<char>) -> bool {
    find(text, pat, 0) is Some
}

/// `text` begins with `pat`.
pub open spec fn starts_with(text: Seq<char>, pat: Seq<char>) -> bool {
    occurs_at(text, pat, 0)
}

/// `text` ends with `pat`.
pub open spec fn ends_with(text: Seq<char>, pat: Seq<char>) -> bool {
    occurs_at(text, pat, text.len() - pat.len())
}

/// What a position found by a search stands for as a mathematical integer.
pub open spec fn position(r: Option<usize>) -> Option<int> {
    match r {
        Some(i) => Some(i as int),
        None => None,
    }
}

/// The characters of each string of a list.
pub open spec fn texts(v: Seq<String>) -> Seq<Seq<char>> {
    v.map_values(|s: String| s@)
}

/// The characters of an optional string.
pub open spec fn opt_text(s: Option<String>) -> Option<Seq<char>> {
    match s {
        Some(s) => Some(s@),
        None => None,
    }
}

/// A search finds an occurrence, and none lies before the one it finds.
pub proof fn lemma_find(text: Seq<char>, pat: Seq<char>, from: int)
    ensures
        match find(text, pat, from) {
            Some(i) => {
                &&& from <= i
                &&& occurs_at(text, pat, i)
                &&& forall|j: int| from <= j < i ==> !#[trigger] occurs_at(text, pat, j)
            },
            None => forall|j: int| from <= j ==> !#[trigger] occurs_at(text, pat, j),
        },
    decreases text.len() - from + 1,
{
    if from + pat.len() > text.len() {
    } else if occurs_at(text, pat, from) {
    } else {
        lemma_find(text, pat, from + 1);
    }
}

/// The first occurrence is what a search finds.
pub proof fn lemma_find_first(text: Seq<char>, pat: Seq<char>, from: int, i: int)
    requires
        from <= i,
        occurs_at(text, pat, i),
        forall|j: int| from <= j < i ==> !#[trigger] occurs_at(text, pat, j),
    ensures
        find(text, pat, from) == Some(i),
{
    lemma_find(text, pat, from);
}

/// A search for a character finds it, and it does not stand before the position found.
pub proof fn lemma_find_char(text: Seq<char>, c: char, from: int)
    requires
        0 <= from,
    ensures
        match find_char(text, c, from) {
            Some(i) => {
                &&& from <= i < text.len()
                &&& text[i] == c
                &&& forall|j: int| from <= j < i ==> #[trigger] text[j] != c
            },
            None => forall|j: int| from <= j < text.len() ==> #[trigger] text[j] != c,
        },
    decreases text.len() - from,
{
    if from < text.len() && text[from] != c {
        lemma_find_char(text, c, from + 1);
    }
}

/// The first place of a character is what a search for it finds.
pub proof fn lemma_find_char_first(text: Seq<char>, c: char, from: int, i: int)
    requires
        0 <= from <= i < text.len(),
        text[i] == c,
        forall|j: int| from <= j < i ==> #[trigger] text[j] != c,
    ensures
        find_char(text, c, from) == Some(i),
{
    lemma_find_char(text, c, from);
}

/// A search from the end finds the character, and it does not stand behind the position found.
pub proof fn lemma_last_char(text: Seq<char>, c: char)
    ensures
        match last_char(text, c) {
            Some(i) => {
                &&& 0 <= i < text.len()
                &&& text[i] == c
                &&& forall|j: int| i < j < text.len() ==> #[trigger] text[j] != c
            },
            None => forall|j: int| 0 <= j < text.len() ==> #[trigger] text[j] != c,
        },
    decreases text.len(),
{
    if text.len() > 0 && text.last() != c {
        let init = text.drop_last();
        lemma_last_char(init, c);
        assert forall|j: int| 0 <= j < text.len() - 1 implies #[trigger] text[j] == init[j] by {}
    }
}

/// The last place of a character is what a search from the end finds.
pub proof fn lemma_last_char_last(text: Seq<char>, c: char, i: int)
    requires
        0 <= i < text.len(),
        text[i] == c,
        forall|j: int| i < j < text.len() ==> #[trigger] text[j] != c,
    ensures
        last_char(text, c) == Some(i),
{
    lemma_last_char(text, c);
}

/// Searching a text without its first `n` characters is searching from position `n` on.
pub proof fn lemma_find_skip(text: Seq<char>, pat: Seq<char>, n: int, from: int)
    requires
        0 <= n <= text.len(),
        0 <= from,
    ensures
        find(text, pat, n + from) == match find(text.skip(n), pat, from) {
            Some(i) => Some(n + i),
            None => None,
        },
    decreases text.len() - from + 1,
{
    let rest = text.skip(n);
    if from + pat.len() <= rest.len() {
        assert(rest.subrange(from, from + pat.len()) =~= text.subrange(
            n + from,
            n + from + pat.len(),
        ));
        if !occurs_at(rest, pat, from) {
            lemma_find_skip(text, pat, n, from + 1);
        }
    }
}

/// The same for a character.
pub proof fn lemma_find_char_skip(text: Seq<char>, c: char, n: int, from: int)
    requires
        0 <= n <= text.len(),
        0 <= from,
    ensures
        find_char(text, c, n + from) == match find_char(text.skip(n), c, from) {
            Some(i) => Some(n + i),
            None => None,
        },
    decreases text.len() - from,
{
    let rest = text.skip(n);
    if from < rest.len() {
        assert(rest[from] == text[n + from]);
        if rest[from] != c {
            lemma_find_char_skip(text, c, n, from + 1);
        }
    }
}

/// An occurrence, character by character.
pub proof fn lemma_occurs_chars(text: Seq<char>, pat: Seq<char>, i: int)
    ensures
        occurs_at(text, pat, i) <==> {
            &&& 0 <= i
            &&& i + pat.len() <= text.len()
            &&& forall|k: int| 0 <= k < pat.len() ==> text[i + k] == #[trigger] pat[k]
        },
{
    if 0 <= i && i + pat.len() <= text.len() {
        let part = text.subrange(i, i + pat.len());
        if forall|k: int| 0 <= k < pat.len() ==> text[i + k] == #[trigger] pat[k] {
            assert(part =~= pat);
        }
        if part == pat {
            assert forall|k: int| 0 <= k < pat.len() implies text[i + k] == #[trigger] pat[k] by {
                assert(part[k] == text[i + k]);
            }
        }
    }
}

/// The characters of a string.
pub fn chars_of(s: &str) -> (r: Vec<char>)
    ensures
        r@ == s@,
{
    let mut out: Vec<char> = Vec::new();
    for c in it: s.chars()
        invariant
            out@ == it.seq().take(it.index() as int),
    {
        out.push(c);
    }
    out
}

/// Appends `v[from..to]` to a string.
pub fn push_range(s: &mut String, v: &Vec<char>, from: usize, to: usize)
    requires
        from <= to <= v@.len(),
    ensures
        final(s)@ == old(s)@ + v@.subrange(from as int, to as int),
{
    let ghost before = s@;
    let mut i: usize = from;
    while i < to
        invariant
            from <= i <= to <= v@.len(),
            s@ == before + v@.subrange(from as int, i as int),
        decreases to - i,
    {
        s.push(v[i]);
        i += 1;
    }
}

/// Appends a string to a string.
pub fn push_text(s: &mut String, t: &str)
    ensures
        final(s)@ == old(s)@ + t@,
{
    let v = chars_of(t);
    push_range(s, &v, 0, v.len());
    assert(v@.subrange(0, v@.len() as int) =~= v@);
}

/// The string that consists of the characters `v[from..to]`.
pub fn string_of(v: &Vec<char>, from: usize, to: usize) -> (r: String)
    requires
        from <= to <= v@.len(),
    ensures
        r@ == v@.subrange(from as int, to as int),
{
    let mut s = String::new();
    push_range(&mut s, v, from, to);
    s
}

/// Whether `pat` occurs in `text` at position `i`.
pub fn matches_at(text: &Vec<char>, pat: &Vec<char>, i: usize) -> (r: bool)
    ensures
        r == occurs_at(text@, pat@, i as int),
{
    proof {
        lemma_occurs_chars(text@, pat@, i as int);
    }
    if i > text.len() || pat.len() > text.len() - i {
        return false;
    }
    let mut k: usize = 0;
    while k < pat.len()
        invariant
            k <= pat@.len(),
            i + pat@.len() <= text.len(),
            forall|m: int| 0 <= m < k ==> text@[i + m] == #[trigger] pat@[m],
        decreases pat@.len() - k,
    {
        if text[i + k] != pat[k] {
            proof {
                lemma_occurs_chars(text@, pat@, i as int);
            }
            return false;
        }
        k += 1;
    }
    true
}

/// The first position at or after `from` at which `pat` occurs in `text`.
pub fn find_from(text: &Vec<char>, pat: &Vec<char>, from: usize) -> (r: Option<usize>)
    ensures
        position(r) == find(text@, pat@, from as int),
{
    let mut i: usize = from;
    while i <= text.len() && pat.len() <= text.len() - i
        invariant
            from <= i,
            find(text@, pat@, from as int) == find(text@, pat@, i as int),
        decreases text@.len() + 1 - i,
    {
        if matches_at(text, pat, i) {
            return Some(i);
        }
        assert(i < text@.len()) by {
            if i == text@.len() {
                assert(text@.subrange(i as int, i as int) =~= pat@);
            }
        }
        i += 1;
    }
    None
}

/// The first position at or after `from` that holds the character `c`.
pub fn find_char_from(text: &Vec<char>, c: char, from: usize) -> (r: Option<usize>)
    ensures
        position(r) == find_char(text@, c, from as int),
{
    let mut i: usize = from;
    while i < text.len()
        invariant
            from <= i,
            find_char(text@, c, from as int) == find_char(text@, c, i as int),
        decreases text@.len() - i,
    {
        if text[i] == c {
            return Some(i);
        }
        i += 1;
    }
    None
}

/// The last position that holds the character `c`.
pub fn find_last_char(text: &Vec<char>, c: char) -> (r: Option<usize>)
    ensures
        position(r) == last_char(text@, c),
{
    let mut i: usize = text.len();
    assert(text@.take(i as int) =~= text@);
    while i > 0
        invariant
            i <= text@.len(),
            last_char(text@, c) == last_char(text@.take(i as int), c),
        decreases i,
    {
        if text[i - 1] == c {
            return Some(i - 1);
        }
        assert(text@.take(i as int).drop_last() =~= text@.take(i - 1));
        i -= 1;
    }
    None
}

/// Whether two character lists are equal.
pub fn same_chars(a: &Vec<char>, b: &Vec<char>) -> (r: bool)
    ensures
        r == (a@ == b@),
{
    if a.len() != b.len() {
        return false;
    }
    let r = matches_at(a, b, 0);
    assert(a@.subrange(0, a@.len() as int) =~= a@);
    r
}

} // verus!
