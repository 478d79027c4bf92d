//! Quoted attributes of a tag: reading and writing their values.
//!
//! An attribute is looked up by its name and an equals sign, at the first place
//! in the tag where the two stand; its value is what the quotes behind enclose.

use vstd::prelude::*;

use crate::number::{parse_u32, u32_value};
use crate::text::{
    chars_of, find, find_char, find_char_from, find_from, find_last_char, last_char, lemma_find,
    lemma_find_char, lemma_find_char_first, lemma_find_first, lemma_last_char, lemma_occurs_chars,
    occurs_at, opt_text, push_range, push_text, string_of,
};

verus! {

/// A quotation mark that can enclose a value.
pub open spec fn is_quote(c: char) -> bool {
    c == '\'' || c == '"'
}

/// What an attribute is looked up by: its name and an equals sign.
pub open spec fn needle(name: Seq<char>) -> Seq<char> {
    name.push('=')
}

/// Where the attribute `name` stands first in `tag`.
pub open spec fn attr_start(tag: Seq<char>, name: Seq<char>) -> Option<int> {
    find(tag, needle(name), 0)
}

/// Where the value of the attribute `name` begins and ends, if the attribute
/// is there and has a value in quotes.
pub open spec fn attr_span(tag: Seq<char>, name: Seq<char>) -> Option<(int, int)> {
    match attr_start(tag, name) {
        None => None,
        Some(start) => {
            let quote = start + needle(name).len();
            if quote < tag.len() && is_quote(tag[quote]) {
                match find_char(tag, tag[quote], quote + 1) {
                    Some(end) => Some((quote + 1, end)),
                    None => None,
                }
            } else {
                None
            }
        },
    }
}

/// The value of the attribute `name`.
pub open spec fn attr_text(tag: Seq<char>, name: Seq<char>) -> Option<Seq<char>> {
    match attr_span(tag, name) {
        Some((from, to)) => Some(tag.subrange(from, to)),
        None => None,
    }
}

/// The value of the attribute `name` as a number.
pub open spec fn attr_number(tag: Seq<char>, name: Seq<char>) -> Option<u32> {
    match attr_text(tag, name) {
        Some(text) => u32_value(text),
        None => None,
    }
}

/// What an attribute that is added looks like.
pub open spec fn new_attr(name: Seq<char>, value: Seq<char>) -> Seq<char> {
    seq![' '] + name + seq!['=', '\''] + value + seq!['\'']
}

/// `tag` with the attribute `name` set to `value`. The value in quotes is
/// replaced where the attribute is there; one without a value in quotes is left
/// alone; one that is not there is added in front of the last `>`.
pub open spec fn with_attr(tag: Seq<char>, name: Seq<char>, value: Seq<char>) -> Seq<char> {
    if attr_start(tag, name) is Some {
        match attr_span(tag, name) {
            Some((from, to)) => tag.take(from) + value + tag.skip(to),
            None => tag,
        }
    } else {
        match last_char(tag, '>') {
            Some(end) => tag.take(end) + new_attr(name, value) + tag.skip(end),
            None => tag,
        }
    }
}

/// What a lookup found, as mathematical integers.
pub open spec fn span_view(span: Option<(usize, usize)>) -> Option<(int, int)> {
    match span {
        Some((from, to)) => Some((from as int, to as int)),
        None => None,
    }
}

/// The value in quotes behind the place `start` of the attribute lies inside the tag.
pub proof fn lemma_attr_span(tag: Seq<char>, name: Seq<char>)
    ensures
        attr_start(tag, name) matches Some(start) ==> 0 <= start && start + name.len() + 1
            <= tag.len(),
        attr_span(tag, name) matches Some((from, to)) ==> {
            &&& attr_start(tag, name) == Some(from - name.len() - 2)
            &&& 0 < from <= to < tag.len()
            &&& is_quote(tag[from - 1])
            &&& tag[to] == tag[from - 1]
            &&& forall|k: int| from <= k < to ==> #[trigger] tag[k] != tag[to]
        },
{
    lemma_find(tag, needle(name), 0);
    if let Some(start) = attr_start(tag, name) {
        let quote = start + needle(name).len();
        if quote < tag.len() {
            lemma_find_char(tag, tag[quote], quote + 1);
        }
    }
}

/// Setting the attribute changes the tag: the attribute has a value in quotes,
/// or it is not there and there is a `>` to add it in front of.
pub open spec fn is_writable(tag: Seq<char>, name: Seq<char>) -> bool {
    attr_span(tag, name) is Some || (attr_start(tag, name) is None && last_char(tag, '>') is Some)
}

/// The quotation mark that encloses the value once the attribute is set.
pub open spec fn value_quote(tag: Seq<char>, name: Seq<char>) -> char {
    match attr_span(tag, name) {
        Some((from, to)) => tag[from - 1],
        None => '\'',
    }
}

/// Where the value begins once the attribute is set.
pub open spec fn value_start(tag: Seq<char>, name: Seq<char>) -> int {
    match attr_span(tag, name) {
        Some((from, to)) => from,
        None => last_char(tag, '>')->0 + name.len() + 3,
    }
}

/// Where the value stands once the attribute is set.
pub proof fn lemma_span_after_write(tag: Seq<char>, name: Seq<char>, value: Seq<char>)
    requires
        is_writable(tag, name),
        attr_start(tag, name) is None ==> !name.contains('='),
        !value.contains(value_quote(tag, name)),
    ensures
        attr_span(with_attr(tag, name, value), name) == Some(
            (value_start(tag, name), value_start(tag, name) + value.len()),
        ),
{
    let new = with_attr(tag, name, value);
    let pat = needle(name);
    let from = value_start(tag, name);
    let to = from + value.len();
    lemma_attr_span(tag, name);
    lemma_last_char(tag, '>');
    lemma_find(tag, pat, 0);
    match attr_span(tag, name) {
        Some((f, t)) => {
            let start = f - name.len() - 2;
            assert forall|j: int| j <= start implies occurs_at(tag, pat, j) == #[trigger] occurs_at(
                new,
                pat,
                j,
            ) by {
                lemma_occurs_chars(tag, pat, j);
                lemma_occurs_chars(new, pat, j);
            }
            lemma_find_first(new, pat, 0, start);
            assert(new[to] == tag[t]);
        },
        None => {
            let end = last_char(tag, '>')->0;
            let start = end + 1;
            assert(new.subrange(start, start + pat.len()) =~= pat);
            assert forall|j: int| 0 <= j < start implies !#[trigger] occurs_at(new, pat, j) by {
                lemma_occurs_chars(new, pat, j);
                lemma_occurs_chars(tag, pat, j);
                if occurs_at(new, pat, j) {
                    if j + pat.len() <= end {
                        assert forall|k: int| 0 <= k < pat.len() implies tag[j + k]
                            == #[trigger] pat[k] by {
                            assert(new[j + k] == pat[k]);
                        }
                        assert(occurs_at(tag, pat, j));
                    } else {
                        // The equals sign would stand in front of that of the new attribute.
                        let last = j + pat.len() - 1;
                        assert(new[j + name.len()] == pat[name.len() as int]);
                        assert(new[last] == '=');
                        if last == end {
                            assert(new[end] == ' ');
                        } else {
                            assert(new[last] == name[last - end - 1]);
                            assert(name.contains('='));
                        }
                    }
                }
            }
            lemma_find_first(new, pat, 0, start);
            assert(new[from - 1] == '\'');
            assert(new[to] == '\'');
        },
    }
    assert(new[from - 1] == value_quote(tag, name));
    assert forall|k: int| from <= k < to implies #[trigger] new[k] != value_quote(tag, name) by {
        assert(new[k] == value[k - from]);
    }
    lemma_find_char_first(new, new[from - 1], from, to);
}

/// Reading an attribute that was set gives back the value, as long as the value
/// does not hold the quotation mark that encloses it. (The name of an attribute
/// that is added must not hold an equals sign.)
pub proof fn law_written_attribute_is_read_back(
    tag: Seq<char>,
    name: Seq<char>,
    value: Seq<char>,
)
    requires
        is_writable(tag, name),
        attr_start(tag, name) is None ==> !name.contains('='),
        !value.contains(value_quote(tag, name)),
    ensures
        attr_text(with_attr(tag, name, value), name) == Some(value),
{
    lemma_span_after_write(tag, name, value);
    lemma_attr_span(tag, name);
    lemma_last_char(tag, '>');
    let new = with_attr(tag, name, value);
    let from = value_start(tag, name);
    assert(new.subrange(from, from + value.len()) =~= value);
}

/// Of two values that are set one after the other the second stays.
pub proof fn law_last_write_stays(
    tag: Seq<char>,
    name: Seq<char>,
    first: Seq<char>,
    second: Seq<char>,
)
    requires
        is_writable(tag, name) ==> {
            &&& attr_start(tag, name) is None ==> !name.contains('=')
            &&& !first.contains(value_quote(tag, name))
        },
    ensures
        with_attr(with_attr(tag, name, first), name, second) == with_attr(tag, name, second),
{
    if is_writable(tag, name) {
        lemma_span_after_write(tag, name, first);
        lemma_attr_span(tag, name);
        lemma_last_char(tag, '>');
        let new = with_attr(tag, name, first);
        assert(with_attr(new, name, second) =~= with_attr(tag, name, second));
    }
}

/// Setting an attribute to the value that it has changes nothing.
pub proof fn law_writing_the_value_read_changes_nothing(tag: Seq<char>, name: Seq<char>)
    requires
        attr_text(tag, name) is Some,
    ensures
        with_attr(tag, name, attr_text(tag, name)->0) == tag,
{
    lemma_attr_span(tag, name);
    assert(with_attr(tag, name, attr_text(tag, name)->0) =~= tag);
}

/// The attribute is there, and what follows it is no quotation mark.
pub open spec fn is_bare(tag: Seq<char>, name: Seq<char>) -> bool {
    attr_start(tag, name) matches Some(start) && start + name.len() + 1 < tag.len() && !is_quote(
        tag[start + name.len() + 1],
    )
}

/// The last position of an attribute: its closing quotation mark, or its equals sign.
pub open spec fn attr_end(tag: Seq<char>, name: Seq<char>) -> int {
    match attr_span(tag, name) {
        Some((from, to)) => to,
        None => attr_start(tag, name)->0 + name.len(),
    }
}

/// The attribute `name` is there, with a value in quotes or without quotes, and
/// setting `other` happens behind it, or in front of it, or not at all.
pub open spec fn stands_apart(tag: Seq<char>, name: Seq<char>, other: Seq<char>) -> bool {
    &&& attr_span(tag, name) is Some || is_bare(tag, name)
    &&& match attr_span(tag, other) {
        Some((from, to)) => attr_end(tag, name) < from || to < attr_start(tag, name)->0,
        None => attr_start(tag, other) is Some || (last_char(tag, '>') matches Some(end)
            ==> attr_end(tag, name) < end),
    }
}

/// Setting one attribute leaves another in the tag and its value as it is, where
/// the two stand apart.
pub proof fn law_other_attributes_stay(
    tag: Seq<char>,
    name: Seq<char>,
    other: Seq<char>,
    value: Seq<char>,
)
    requires
        stands_apart(tag, name, other),
        forall|k: int| 0 <= k < name.len() ==> !is_quote(#[trigger] name[k]),
        !value.contains('='),
    ensures
        attr_start(with_attr(tag, other, value), name) is Some,
        attr_text(with_attr(tag, other, value), name) == attr_text(tag, name),
{
    let new = with_attr(tag, other, value);
    let start = attr_start(tag, name)->0;
    let last = attr_end(tag, name);
    lemma_attr_span(tag, name);
    lemma_attr_span(tag, other);
    lemma_last_char(tag, '>');
    match attr_span(tag, other) {
        Some((c, d)) => {
            if last < c {
                assert(tag.take(c) =~= new.take(c));
                if attr_span(tag, name) is None {
                    lemma_find(tag, needle(name), 0);
                    lemma_occurs_chars(tag, needle(name), start);
                    assert(tag[start + name.len()] == needle(name)[name.len() as int]);
                }
                lemma_kept_in_prefix(tag, new, name, c);
            } else {
                lemma_start_shifted(tag, name, c, d, value);
                let shift = c + value.len() - d;
                assert forall|k: int| d <= k < tag.len() implies #[trigger] tag[k] == new[k
                    + shift] by {}
                match attr_span(tag, name) {
                    Some((from, to)) => {
                        assert(new[from - 1 + shift] == tag[from - 1]);
                        assert forall|k: int| from + shift <= k < to + shift implies #[trigger] new[k]
                            != tag[to] by {
                            assert(new[k] == tag[k - shift]);
                        }
                        assert(new[to + shift] == tag[to]);
                        lemma_find_char_first(new, new[from - 1 + shift], from + shift, to + shift);
                        assert(new.subrange(from + shift, to + shift) =~= tag.subrange(from, to));
                    },
                    None => {
                        assert(new[last + 1 + shift] == tag[last + 1]);
                    },
                }
            }
        },
        None => {
            if attr_start(tag, other) is None {
                if let Some(end) = last_char(tag, '>') {
                    assert(tag.take(end) =~= new.take(end));
                    assert(new[end] == ' ');
                    lemma_kept_in_prefix(tag, new, name, end);
                }
            }
        },
    }
}

/// An attribute, and its value, stay when the tag changes only behind it.
proof fn lemma_kept_in_prefix(tag: Seq<char>, other: Seq<char>, name: Seq<char>, n: int)
    requires
        0 <= n <= tag.len(),
        n < other.len(),
        tag.take(n) == other.take(n),
        attr_span(tag, name) is Some || is_bare(tag, name),
        attr_end(tag, name) < n,
        attr_span(tag, name) is None && attr_end(tag, name) == n - 1 ==> !is_quote(other[n]),
    ensures
        attr_start(other, name) is Some,
        attr_text(other, name) == attr_text(tag, name),
{
    lemma_attr_span(tag, name);
    let pat = needle(name);
    let start = attr_start(tag, name)->0;
    let last = attr_end(tag, name);
    lemma_find(tag, pat, 0);
    assert forall|k: int| 0 <= k < n implies tag[k] == #[trigger] other[k] by {
        assert(tag.take(n)[k] == tag[k]);
        assert(other.take(n)[k] == other[k]);
    }
    assert forall|j: int| j <= start implies occurs_at(tag, pat, j) == #[trigger] occurs_at(
        other,
        pat,
        j,
    ) by {
        lemma_occurs_chars(tag, pat, j);
        lemma_occurs_chars(other, pat, j);
    }
    lemma_find_first(other, pat, 0, start);
    match attr_span(tag, name) {
        Some((from, to)) => {
            lemma_find_char_first(other, other[from - 1], from, to);
            assert(other.subrange(from, to) =~= tag.subrange(from, to));
        },
        None => {
            if last + 1 < n {
                assert(other[last + 1] == tag[last + 1]);
            }
        },
    }
}

/// An attribute moves along when a value in quotes in front of it is replaced.
proof fn lemma_start_shifted(tag: Seq<char>, name: Seq<char>, c: int, d: int, value: Seq<char>)
    requires
        attr_start(tag, name) matches Some(start) && d < start,
        0 < c <= d < tag.len(),
        is_quote(tag[c - 1]),
        is_quote(tag[d]),
        forall|k: int| 0 <= k < name.len() ==> !is_quote(#[trigger] name[k]),
        !value.contains('='),
    ensures
        attr_start(tag, name) matches Some(start) && attr_start(
            tag.take(c) + value + tag.skip(d),
            name,
        ) == Some(start + c + value.len() - d),
{
    let new = tag.take(c) + value + tag.skip(d);
    let shift = c + value.len() - d;
    let pat = needle(name);
    let start = attr_start(tag, name)->0;
    lemma_find(tag, pat, 0);
    assert forall|k: int| d <= k < tag.len() implies #[trigger] tag[k] == new[k + shift] by {}
    assert forall|j: int| d <= j implies occurs_at(tag, pat, j) == #[trigger] occurs_at(
        new,
        pat,
        j + shift,
    ) by {
        lemma_occurs_chars(tag, pat, j);
        lemma_occurs_chars(new, pat, j + shift);
        assert forall|k: int| 0 <= k < pat.len() && j + pat.len() <= tag.len() implies new[j + shift
            + k] == #[trigger] tag[j + k] by {}
    }
    assert(occurs_at(new, pat, start + shift));
    assert forall|j: int| 0 <= j < start + shift implies !#[trigger] occurs_at(new, pat, j) by {
        lemma_occurs_chars(new, pat, j);
        lemma_occurs_chars(tag, pat, j);
        if occurs_at(new, pat, j) {
            let last = j + pat.len() - 1;
            assert(new[j + name.len()] == pat[name.len() as int]);
            if j >= d + shift {
                assert(occurs_at(tag, pat, j - shift) == occurs_at(new, pat, j - shift + shift));
            } else if last < c {
                assert forall|k: int| 0 <= k < pat.len() implies tag[j + k] == #[trigger] pat[k] by {
                    assert(new[j + k] == pat[k]);
                }
                assert(occurs_at(tag, pat, j));
            } else if j < c {
                // The opening quotation mark would be part of the occurrence.
                assert(new[j + (c - 1 - j)] == pat[c - 1 - j]);
                assert(new[c - 1] == tag[c - 1]);
            } else if last >= d + shift {
                // So would the closing one.
                assert(new[j + (d + shift - j)] == pat[d + shift - j]);
                assert(new[d + shift] == tag[d]);
            } else {
                assert(new[last] == value[last - c]);
                assert(value.contains('='));
            }
        }
    }
    lemma_find_first(new, pat, 0, start + shift);
}

/// Whether the attribute `name` is in the tag, and where its value in quotes begins and ends.
fn find_attr(tag: &Vec<char>, name: &str) -> (r: (bool, Option<(usize, usize)>))
    ensures
        r.0 == (attr_start(tag@, name@) is Some),
        span_view(r.1) == attr_span(tag@, name@),
{
    proof {
        lemma_attr_span(tag@, name@);
    }
    let mut pat = chars_of(name);
    pat.push('=');
    let len: usize = tag.len();
    match find_from(tag, &pat, 0) {
        None => (false, None),
        Some(start) => {
            let quote: usize = start + pat.len();
            if quote >= len || (tag[quote] != '\'' && tag[quote] != '"') {
                return (true, None);
            }
            match find_char_from(tag, tag[quote], quote + 1) {
                Some(end) => (true, Some((quote + 1, end))),
                None => (true, None),
            }
        },
    }
}

/// The value of the attribute `name` of `tag`, if it is there in quotes.
pub fn attr_value(tag: &str, name: &str) -> (r: Option<String>)
    ensures
        opt_text(r) == attr_text(tag@, name@),
{
    let t = chars_of(tag);
    proof {
        lemma_attr_span(tag@, name@);
    }
    match find_attr(&t, name).1 {
        None => None,
        Some((from, to)) => Some(string_of(&t, from, to)),
    }
}

/// The value of the attribute `name` of `tag`, if it is a 32-bit number in quotes.
pub fn attr_u32(tag: &str, name: &str) -> (r: Option<u32>)
    ensures
        r == attr_number(tag@, name@),
{
    match attr_value(tag, name) {
        Some(text) => parse_u32(text.as_str()),
        None => None,
    }
}

/// `tag` with the attribute `name` set to `value`.
pub fn set_attr_value(tag: &str, name: &str, value: &str) -> (r: String)
    ensures
        r@ == with_attr(tag@, name@, value@),
{
    let t = chars_of(tag);
    assert(t@.subrange(0, t@.len() as int) =~= t@);
    proof {
        lemma_attr_span(tag@, name@);
        lemma_last_char(tag@, '>');
    }
    let mut out = String::new();
    let (found, span) = find_attr(&t, name);
    if found {
        match span {
            None => {
                push_text(&mut out, tag);
            },
            Some((from, to)) => {
                push_range(&mut out, &t, 0, from);
                push_text(&mut out, value);
                push_range(&mut out, &t, to, t.len());
            },
        }
    } else {
        match find_last_char(&t, '>') {
            None => {
                push_text(&mut out, tag);
            },
            Some(end) => {
                push_range(&mut out, &t, 0, end);
                out.push(' ');
                push_text(&mut out, name);
                out.push('=');
                out.push('\'');
                push_text(&mut out, value);
                out.push('\'');
                push_range(&mut out, &t, end, t.len());
            },
        }
    }
    assert(out@ =~= with_attr(tag@, name@, value@));
    out
}

} // verus!
