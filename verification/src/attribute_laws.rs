//! What reading and writing an attribute comes to, for each way in which it can
//! stand in a tag.

use vstd::prelude::*;

use crate::attribute::{attr_number, attr_text, with_attr};
use crate::number::u32_value;
use crate::text::{
    find, lemma_find, lemma_find_char, lemma_find_char_first, lemma_find_first, lemma_last_char,
    lemma_last_char_last, occurs_at,
};
use crate::text_laws::{is_absent, lemma_stands_at, stands_at, stands_first};

verus! {

/// A tag with an attribute in quotes.
pub open spec fn quoted_tag(
    before: Seq<char>,
    name: Seq<char>,
    quote: char,
    value: Seq<char>,
    after: Seq<char>,
) -> Seq<char> {
    before + name + seq!['=', quote] + value + seq![quote] + after
}

/// A search finds what stands first.
pub proof fn lemma_stands_first(text: Seq<char>, pat: Seq<char>, at: int)
    requires
        stands_first(text, pat, at),
    ensures
        find(text, pat, 0) == Some(at),
{
    lemma_stands_at(text, pat, at);
    assert forall|j: int| 0 <= j < at implies !#[trigger] occurs_at(text, pat, j) by {
        lemma_stands_at(text, pat, j);
        assert(!stands_at(text, pat, j));
    }
    lemma_find_first(text, pat, 0, at);
}

/// A search does not find what stands nowhere.
proof fn lemma_is_absent(text: Seq<char>, pat: Seq<char>)
    requires
        is_absent(text, pat),
    ensures
        find(text, pat, 0) is None,
{
    lemma_find(text, pat, 0);
    if let Some(i) = find(text, pat, 0) {
        lemma_stands_at(text, pat, i);
    }
}

/// The value of an attribute is what the quotes behind the first place of its
/// name and an equals sign enclose, up to the first such quote; setting the
/// attribute replaces that value and nothing else.
pub proof fn law_quoted_attribute(
    before: Seq<char>,
    name: Seq<char>,
    quote: char,
    value: Seq<char>,
    after: Seq<char>,
    new: Seq<char>,
)
    requires
        quote == '\'' || quote == '"',
        !value.contains(quote),
        stands_first(
            quoted_tag(before, name, quote, value, after),
            name.push('='),
            before.len() as int,
        ),
    ensures
        attr_text(quoted_tag(before, name, quote, value, after), name) == Some(value),
        with_attr(quoted_tag(before, name, quote, value, after), name, new) == quoted_tag(
            before,
            name,
            quote,
            new,
            after,
        ),
{
    let tag = quoted_tag(before, name, quote, value, after);
    lemma_stands_first(tag, name.push('='), before.len() as int);
    let from = before.len() + name.len() + 2;
    let to = from + value.len();
    assert(tag[from - 1] == quote);
    assert(tag[to as int] == quote);
    assert forall|k: int| from <= k < to implies #[trigger] tag[k] != quote by {
        assert(tag[k] == value[k - from]);
        assert(value.contains(value[k - from]));
    }
    lemma_find_char_first(tag, quote, from as int, to as int);
    assert(tag.subrange(from as int, to as int) =~= value);
    assert(tag.take(from as int) + new + tag.skip(to as int) =~= quoted_tag(
        before,
        name,
        quote,
        new,
        after,
    ));
}

/// An attribute has no value, and setting it changes nothing, where no quote
/// follows its equals sign at once, or where that quote is not closed.
pub proof fn law_attribute_without_quotes(
    before: Seq<char>,
    name: Seq<char>,
    after: Seq<char>,
    new: Seq<char>,
)
    requires
        stands_first(before + name.push('=') + after, name.push('='), before.len() as int),
        after.len() == 0 || (after[0] != '\'' && after[0] != '"') || !after.skip(1).contains(
            after[0],
        ),
    ensures
        attr_text(before + name.push('=') + after, name) is None,
        with_attr(before + name.push('=') + after, name, new) == before + name.push('=') + after,
{
    let tag = before + name.push('=') + after;
    lemma_stands_first(tag, name.push('='), before.len() as int);
    let quote = before.len() as int + name.len() + 1;
    if after.len() > 0 {
        assert(tag[quote] == after[0]);
        lemma_find_char(tag, after[0], quote + 1);
        assert forall|k: int| quote + 1 <= k < tag.len() implies #[trigger] tag[k] == after.skip(
            1,
        )[k - quote - 1] by {}
    }
}

/// An attribute that is not there has no value; setting it adds it, in single
/// quotes, in front of the last `>`.
pub proof fn law_new_attribute(
    front: Seq<char>,
    back: Seq<char>,
    name: Seq<char>,
    new: Seq<char>,
)
    requires
        is_absent(front + seq!['>'] + back, name.push('=')),
        !back.contains('>'),
    ensures
        attr_text(front + seq!['>'] + back, name) is None,
        with_attr(front + seq!['>'] + back, name, new) == front + seq![' '] + name + seq!['=', '\'']
            + new + seq!['\'', '>'] + back,
{
    let tag = front + seq!['>'] + back;
    lemma_is_absent(tag, name.push('='));
    let end = front.len() as int;
    assert forall|k: int| end < k < tag.len() implies #[trigger] tag[k] != '>' by {
        assert(tag[k] == back[k - end - 1]);
        assert(back.contains(back[k - end - 1]));
    }
    lemma_last_char_last(tag, '>', end);
    assert(with_attr(tag, name, new) =~= front + seq![' '] + name + seq!['=', '\''] + new + seq![
        '\'',
        '>',
    ] + back);
}

/// An attribute that is not there is not added where there is no `>`.
pub proof fn law_no_place_for_an_attribute(tag: Seq<char>, name: Seq<char>, new: Seq<char>)
    requires
        is_absent(tag, name.push('=')),
        !tag.contains('>'),
    ensures
        attr_text(tag, name) is None,
        with_attr(tag, name, new) == tag,
{
    lemma_is_absent(tag, name.push('='));
    lemma_last_char(tag, '>');
}

/// An attribute is a number where its value reads as one.
pub proof fn law_number_of_an_attribute(tag: Seq<char>, name: Seq<char>)
    ensures
        attr_text(tag, name) is None ==> attr_number(tag, name) is None,
        attr_text(tag, name) matches Some(value) ==> attr_number(tag, name) == u32_value(value),
{
}

} // verus!
