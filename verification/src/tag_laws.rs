//! What an `img` tag says of its image, and what becomes of the tag.

use vstd::prelude::*;

use crate::aspect::{
    height_for, law_height_of_an_image_without_width, law_natural_width_gives_natural_height,
    law_ratio_is_kept,
};
use crate::attribute::{
    attr_number, attr_span, attr_start, attr_text, is_quote, law_other_attributes_stay,
    law_written_attribute_is_read_back, lemma_attr_span, needle, new_attr, stands_apart, with_attr,
};
use crate::attribute_laws::law_new_attribute;
use crate::html::{image_path, path_end, rewritten_tag, source_path};
use crate::number::{
    decimal, is_digit, law_written_number_is_read_back, lemma_decimal, u32_value,
    without_plus,
};
use crate::text::{
    find_char, last_char, lemma_find, lemma_find_char, lemma_find_char_first, lemma_find_first,
    lemma_last_char, lemma_occurs_chars, occurs_at,
};
use crate::text_laws::{is_absent, lemma_stands_at, stands_at};

verus! {

/// A path without marks ends where the text ends, or at the mark that follows it.
proof fn lemma_unmarked_path(path: Seq<char>, tail: Seq<char>, i: int)
    requires
        0 <= i <= path.len(),
        !path.contains('?'),
        !path.contains('#'),
        tail.len() == 0 || tail[0] == '?' || tail[0] == '#',
    ensures
        path_end(path + tail, i) == path.len(),
    decreases path.len() - i,
{
    let src = path + tail;
    if i < path.len() {
        assert(src[i] == path[i]);
        assert(path.contains(path[i]));
        lemma_unmarked_path(path, tail, i + 1);
    } else if tail.len() > 0 {
        assert(src[i] == tail[0]);
    }
}

/// A `src` value names a file by what stands in front of its first `?` or `#`:
/// none where that begins with `http://`, `https://` or `data:`, the path behind
/// `./` where it begins so, and else all of it.
pub proof fn law_path_of_an_image(path: Seq<char>, tail: Seq<char>)
    requires
        !path.contains('?'),
        !path.contains('#'),
        tail.len() == 0 || tail[0] == '?' || tail[0] == '#',
    ensures
        source_path(path + tail) == if stands_at(path, "http://"@, 0) || stands_at(
            path,
            "https://"@,
            0,
        ) || stands_at(path, "data:"@, 0) {
            None
        } else if stands_at(path, "./"@, 0) {
            Some(path.skip(2))
        } else {
            Some(path)
        },
{
    lemma_unmarked_path(path, tail, 0);
    assert((path + tail).take(path.len() as int) =~= path);
    lemma_stands_at(path, "http://"@, 0);
    lemma_stands_at(path, "https://"@, 0);
    lemma_stands_at(path, "data:"@, 0);
    lemma_stands_at(path, "./"@, 0);
}

/// A tag shows the image that its `src` value names, and none without such a value.
pub proof fn law_image_of_a_tag(tag: Seq<char>)
    ensures
        attr_text(tag, "src"@) is None ==> image_path(tag) is None,
        attr_text(tag, "src"@) matches Some(src) ==> image_path(tag) == source_path(src),
{
}

/// A tag whose image has no known size, or is no file of the page, stays as it is.
pub proof fn law_tag_without_size_stays(tag: Seq<char>, natural: Option<(u32, u32)>)
    requires
        natural is None || image_path(tag) is None,
    ensures
        rewritten_tag(tag, natural) == tag,
{
}

/// A tag whose width reads as a number keeps that number, whatever the natural
/// width is: its width is set to it, and its height to the one that goes with it.
pub proof fn law_number_in_the_tag_wins(
    tag: Seq<char>,
    width: u32,
    natural_width: u32,
    natural_height: u32,
)
    requires
        image_path(tag) is Some,
        attr_number(tag, "width"@) == Some(width),
    ensures
        rewritten_tag(tag, Some((natural_width, natural_height))) == with_attr(
            with_attr(tag, "width"@, decimal(width as nat)),
            "height"@,
            decimal(height_for(width, natural_width, natural_height) as nat),
        ),
{
}

/// A tag whose width does not read as a number is set to the natural size (with
/// a height of at least 1).
pub proof fn law_natural_size_is_the_default(
    tag: Seq<char>,
    natural_width: u32,
    natural_height: u32,
)
    requires
        image_path(tag) is Some,
        attr_number(tag, "width"@) is None,
    ensures
        rewritten_tag(tag, Some((natural_width, natural_height))) == with_attr(
            with_attr(tag, "width"@, decimal(natural_width as nat)),
            "height"@,
            decimal(
                if natural_width == 0 || natural_height == 0 {
                    1
                } else {
                    natural_height as nat
                },
            ),
        ),
{
    if natural_width > 0 {
        law_natural_width_gives_natural_height(natural_width, natural_height);
    } else {
        law_height_of_an_image_without_width(0, natural_height);
    }
}

/// Digits are no quotes, equals signs or brackets.
proof fn lemma_digits_are_plain(n: u32)
    ensures
        forall|c: char| #[trigger] decimal(n as nat).contains(c) ==> '0' <= c <= '9',
{
    lemma_decimal(n as nat);
    assert forall|c: char| #[trigger] decimal(n as nat).contains(c) implies '0' <= c <= '9' by {
        let k = choose|k: int| 0 <= k < decimal(n as nat).len() && decimal(n as nat)[k] == c;
        assert(is_digit(decimal(n as nat)[k]));
    }
}

/// A text that reads as a number is not empty, and holds digits and plus signs only.
proof fn lemma_number_is_plain(s: Seq<char>)
    requires
        u32_value(s) is Some,
    ensures
        s.len() > 0,
        forall|k: int| 0 <= k < s.len() ==> '0' <= #[trigger] s[k] <= '9' || s[k] == '+',
{
    let digits = without_plus(s);
    assert forall|k: int| 0 <= k < s.len() implies '0' <= #[trigger] s[k] <= '9' || s[k]
        == '+' by {
        if s[0] == '+' {
            if k > 0 {
                assert(is_digit(digits[k - 1]));
            }
        } else {
            assert(is_digit(digits[k]));
        }
    }
}

/// A width that is added to a tag without a height adds none.
proof fn lemma_added_width_is_no_height(front: Seq<char>, w: Seq<char>)
    requires
        is_absent(front + seq!['>'], "height="@),
        forall|c: char| #[trigger] w.contains(c) ==> '0' <= c <= '9',
    ensures
        is_absent(front + " width='"@ + w + seq!['\'', '>'], "height="@),
{
    reveal_strlit("height=");
    reveal_strlit(" width='");
    let added = " width='"@;
    let pat = "height="@;
    let tag = front + seq!['>'];
    let wide = front + added + w + seq!['\'', '>'];
    let n = front.len() as int;
    assert forall|j: int| !#[trigger] stands_at(wide, pat, j) by {
        if stands_at(wide, pat, j) {
            let last = j + 6;
            assert(wide[j + 6] == pat[6] && wide[j + 5] == pat[5]);
            if last < n {
                assert forall|k: int| 0 <= k < 7 implies tag[j + k] == #[trigger] pat[k] by {
                    assert(wide[j + k] == pat[k]);
                }
                assert(stands_at(tag, pat, j));
            } else if last < n + 8 {
                assert(wide[last] == added[last - n]);
                if last == n + 6 {
                    assert(wide[last - 1] == added[5]);
                }
            } else if last < n + 8 + w.len() {
                assert(wide[last] == w[last - n - 8]);
                assert(w.contains(w[last - n - 8]));
            }
        }
    }
}

/// The words of an added attribute.
proof fn lemma_words()
    ensures
        "width="@ == "width"@.push('='),
        "height="@ == "height"@.push('='),
        " width='"@ == seq![' '] + "width"@ + seq!['=', '\''],
        "' height='"@ == seq!['\''] + (seq![' '] + "height"@ + seq!['=', '\'']),
        "'>"@ == seq!['\'', '>'],
{
    reveal_strlit("width");
    reveal_strlit("height");
    reveal_strlit("width=");
    reveal_strlit("height=");
    reveal_strlit(" width='");
    reveal_strlit("' height='");
    reveal_strlit("'>");
    assert("width="@ =~= "width"@.push('='));
    assert("height="@ =~= "height"@.push('='));
    assert(" width='"@ =~= seq![' '] + "width"@ + seq!['=', '\'']);
    assert("' height='"@ =~= seq!['\''] + (seq![' '] + "height"@ + seq!['=', '\'']));
    assert("'>"@ =~= seq!['\'', '>']);
}

/// A tag that holds neither a width nor a height, and ends with its `>`, is given
/// the natural size of its image in front of that.
pub proof fn law_bare_tag_gets_the_natural_size(
    front: Seq<char>,
    natural_width: u32,
    natural_height: u32,
)
    requires
        image_path(front + seq!['>']) is Some,
        is_absent(front + seq!['>'], "width="@),
        is_absent(front + seq!['>'], "height="@),
        natural_width > 0,
        natural_height > 0,
    ensures
        rewritten_tag(front + seq!['>'], Some((natural_width, natural_height))) == front
            + " width='"@ + decimal(natural_width as nat) + "' height='"@ + decimal(
            natural_height as nat,
        ) + "'>"@,
{
    let none = Seq::<char>::empty();
    let tag = front + seq!['>'];
    let w = decimal(natural_width as nat);
    let h = decimal(natural_height as nat);
    lemma_words();
    assert(tag =~= front + seq!['>'] + none);
    law_new_attribute(front, none, "width"@, w);
    let wide = with_attr(tag, "width"@, w);
    let front2 = front + " width='"@ + w + seq!['\''];
    assert(wide =~= front2 + seq!['>'] + none);
    lemma_digits_are_plain(natural_width);
    lemma_added_width_is_no_height(front, w);
    assert(front + " width='"@ + w + seq!['\'', '>'] =~= wide);
    law_new_attribute(front2, none, "height"@, h);
    law_natural_size_is_the_default(tag, natural_width, natural_height);
    assert(with_attr(wide, "height"@, h) =~= front + " width='"@ + w + "' height='"@ + h + "'>"@);
}

/// Where a position behind a changed stretch, which began at `c`, comes to stand.
spec fn moved(p: int, c: int, shift: int) -> int {
    if p <= c {
        p
    } else {
        p + shift
    }
}

/// Between the quotes at `c - 1` and `d` stand neither quotes nor equals signs.
spec fn is_plain_between(tag: Seq<char>, c: int, d: int) -> bool {
    &&& 0 < c <= d < tag.len()
    &&& is_quote(tag[c - 1])
    &&& is_quote(tag[d])
    &&& forall|k: int| c <= k < d ==> !is_quote(#[trigger] tag[k]) && tag[k] != '='
}

/// A name and an equals sign lie in front of such quotes or behind them.
proof fn lemma_occurs_outside(tag: Seq<char>, c: int, d: int, name: Seq<char>, j: int)
    requires
        is_plain_between(tag, c, d),
        forall|k: int| 0 <= k < name.len() ==> !is_quote(#[trigger] name[k]),
        occurs_at(tag, needle(name), j),
    ensures
        j + needle(name).len() <= c - 1 || j > d,
{
    let pat = needle(name);
    let n = pat.len() as int;
    lemma_occurs_chars(tag, pat, j);
    assert(tag[j + (n - 1)] == pat[n - 1]);
    if j + n > c - 1 && j <= c - 1 {
        assert(tag[j + (c - 1 - j)] == pat[c - 1 - j]);
        assert(c - 1 - j < n - 1 ==> pat[c - 1 - j] == name[c - 1 - j]);
    } else if c - 1 < j <= d && j + n > d {
        assert(tag[j + (d - j)] == pat[d - j]);
        assert(d - j < n - 1 ==> pat[d - j] == name[d - j]);
    }
}

/// `new` is `tag` with what stands between the quotes at `c - 1` and `d` replaced.
spec fn is_replaced(tag: Seq<char>, c: int, d: int, new: Seq<char>, shift: int) -> bool {
    &&& is_plain_between(tag, c, d)
    &&& is_plain_between(new, c, d + shift)
    &&& new.len() == tag.len() + shift
    &&& forall|k: int| 0 <= k < c ==> #[trigger] new[k] == tag[k]
    &&& forall|k: int| d <= k < tag.len() ==> #[trigger] tag[k] == new[k + shift]
}

/// The occurrences in front of the quotes stay, and those behind move along.
proof fn lemma_occurrence_moves(
    tag: Seq<char>,
    c: int,
    d: int,
    new: Seq<char>,
    shift: int,
    pat: Seq<char>,
    j: int,
)
    requires
        is_replaced(tag, c, d, new, shift),
    ensures
        j + pat.len() <= c - 1 ==> occurs_at(tag, pat, j) == occurs_at(new, pat, j),
        j > d ==> occurs_at(tag, pat, j) == occurs_at(new, pat, j + shift),
{
    lemma_occurs_chars(tag, pat, j);
    lemma_occurs_chars(new, pat, j);
    lemma_occurs_chars(new, pat, j + shift);
    if j > d && j + pat.len() <= tag.len() {
        assert forall|k: int| 0 <= k < pat.len() implies new[j + shift + k] == #[trigger] tag[j
            + k] by {}
        if occurs_at(new, pat, j + shift) {
            assert forall|k: int| 0 <= k < pat.len() implies tag[j + k] == #[trigger] pat[k] by {
                assert(new[j + shift + k] == pat[k]);
            }
        }
        if occurs_at(tag, pat, j) {
            assert forall|k: int| 0 <= k < pat.len() implies new[j + shift + k]
                == #[trigger] pat[k] by {
                assert(tag[j + k] == pat[k]);
            }
        }
    }
}

/// An attribute stays where text between quotes is replaced, and moves along.
proof fn lemma_start_moves_along(
    tag: Seq<char>,
    c: int,
    d: int,
    new: Seq<char>,
    shift: int,
    name: Seq<char>,
)
    requires
        is_replaced(tag, c, d, new, shift),
        c < d,
        forall|k: int| 0 <= k < name.len() ==> !is_quote(#[trigger] name[k]),
    ensures
        attr_start(new, name) == match attr_start(tag, name) {
            Some(start) => Some(moved(start, c, shift)),
            None => None,
        },
        attr_start(tag, name) matches Some(start) ==> start + name.len() + 1 <= c - 1 || start > d,
{
    let pat = needle(name);
    let n = pat.len() as int;
    lemma_find(tag, pat, 0);
    lemma_find(new, pat, 0);
    if let Some(start) = attr_start(tag, name) {
        lemma_occurs_outside(tag, c, d, name, start);
        lemma_occurrence_moves(tag, c, d, new, shift, pat, start);
        assert(occurs_at(new, pat, moved(start, c, shift)));
    }
    if let Some(at) = attr_start(new, name) {
        lemma_occurs_outside(new, c, d + shift, name, at);
        lemma_occurrence_moves(tag, c, d, new, shift, pat, at);
        lemma_occurrence_moves(tag, c, d, new, shift, pat, at - shift);
        let j = if at + n <= c - 1 { at } else { at - shift };
        assert(occurs_at(tag, pat, j));
        assert(attr_start(tag, name) is Some);
        let start = attr_start(tag, name)->0;
        assert(start <= j);
        assert(at <= moved(start, c, shift));
    }
}

/// The closing quote stays where text between quotes is replaced, and moves along.
proof fn lemma_quote_moves_along(
    tag: Seq<char>,
    c: int,
    d: int,
    new: Seq<char>,
    shift: int,
    quote: char,
    from: int,
)
    requires
        is_replaced(tag, c, d, new, shift),
        c < d,
        is_quote(quote),
        0 <= from <= c || d < from <= tag.len(),
    ensures
        find_char(new, quote, moved(from, c, shift)) == match find_char(tag, quote, from) {
            Some(to) => Some(moved(to, c, shift)),
            None => None,
        },
{
    let from2 = moved(from, c, shift);
    lemma_find_char(tag, quote, from);
    lemma_find_char(new, quote, from2);
    match find_char(tag, quote, from) {
        Some(to) => {
            let to2 = moved(to, c, shift);
            assert(to < c || to >= d);
            assert(new[to2] == tag[to]);
            assert forall|k: int| from2 <= k < to2 implies #[trigger] new[k] != quote by {
                if k < c {
                    assert(new[k] == tag[k]);
                } else if k >= d + shift {
                    assert(tag[k - shift] == new[k - shift + shift]);
                }
            }
            lemma_find_char_first(new, quote, from2, to2);
        },
        None => {
            if let Some(k) = find_char(new, quote, from2) {
                if k < c {
                    assert(new[k] == tag[k]);
                } else if k >= d + shift {
                    assert(tag[k - shift] == new[k - shift + shift]);
                }
            }
        },
    }
}

/// Text between quotes that holds neither quotes nor equals signs can be replaced
/// by such text, and every attribute stays, moved along.
proof fn lemma_attributes_move_along(
    tag: Seq<char>,
    c: int,
    d: int,
    value: Seq<char>,
    name: Seq<char>,
)
    requires
        is_plain_between(tag, c, d),
        c < d,
        forall|k: int| 0 <= k < value.len() ==> !is_quote(#[trigger] value[k]) && value[k] != '=',
        forall|k: int| 0 <= k < name.len() ==> !is_quote(#[trigger] name[k]),
    ensures
        ({
            let new = tag.take(c) + value + tag.skip(d);
            let shift = c + value.len() - d;
            &&& attr_start(new, name) == match attr_start(tag, name) {
                Some(start) => Some(moved(start, c, shift)),
                None => None,
            }
            &&& attr_span(new, name) == match attr_span(tag, name) {
                Some((from, to)) => Some((moved(from, c, shift), moved(to, c, shift))),
                None => None,
            }
        }),
{
    let new = tag.take(c) + value + tag.skip(d);
    let shift = c + value.len() - d;
    assert forall|k: int| c <= k < d + shift implies !is_quote(#[trigger] new[k]) && new[k]
        != '=' by {
        assert(new[k] == value[k - c]);
    }
    assert(new[c - 1] == tag[c - 1]);
    assert(new[d + shift] == tag[d]);
    assert(is_replaced(tag, c, d, new, shift));
    lemma_start_moves_along(tag, c, d, new, shift, name);
    if let Some(start) = attr_start(tag, name) {
        let q = start + needle(name).len();
        let q2 = moved(start, c, shift) + needle(name).len();
        lemma_attr_span(tag, name);
        if q < tag.len() {
            assert(new[q2] == tag[q]);
            if is_quote(tag[q]) {
                lemma_quote_moves_along(tag, c, d, new, shift, tag[q], q + 1);
            }
        }
    }
}

/// A height that is added in front of the width leaves the width as it is.
proof fn lemma_height_in_front(tag: Seq<char>, end: int, value: Seq<char>)
    requires
        attr_span(tag, "width"@) is Some,
        0 <= end,
        attr_start(tag, "width"@) matches Some(start) && end < start,
        !value.contains('='),
    ensures
        attr_text(tag.take(end) + new_attr("height"@, value) + tag.skip(end), "width"@)
            == attr_text(tag, "width"@),
{
    reveal_strlit("width");
    reveal_strlit("height");
    let added = new_attr("height"@, value);
    let new = tag.take(end) + added + tag.skip(end);
    let pat = needle("width"@);
    let s = added.len() as int;
    let start = attr_start(tag, "width"@)->0;
    let (from, to) = attr_span(tag, "width"@)->0;
    lemma_attr_span(tag, "width"@);
    lemma_find(tag, pat, 0);
    assert forall|k: int| 0 <= k < end implies #[trigger] new[k] == tag[k] by {}
    assert forall|k: int| end <= k < tag.len() implies #[trigger] tag[k] == new[k + s] by {}
    assert(occurs_at(new, pat, start + s)) by {
        lemma_occurs_chars(tag, pat, start);
        lemma_occurs_chars(new, pat, start + s);
        assert forall|k: int| 0 <= k < 6 implies new[start + s + k] == #[trigger] pat[k] by {
            assert(tag[start + k] == pat[k]);
        }
    }
    assert forall|j: int| 0 <= j < start + s implies !#[trigger] occurs_at(new, pat, j) by {
        if occurs_at(new, pat, j) {
            lemma_occurs_chars(new, pat, j);
            let last = j + 5;
            assert(new[j + 5] == pat[5] && new[j + 4] == pat[4]);
            if last < end {
                lemma_occurs_chars(tag, pat, j);
                assert forall|k: int| 0 <= k < 6 implies tag[j + k] == #[trigger] pat[k] by {
                    assert(new[j + k] == pat[k]);
                }
                assert(occurs_at(tag, pat, j));
            } else if last < end + s {
                let at = last - end;
                assert(new[last] == added[at]);
                if 1 <= at < 7 {
                    assert(added[at] == "height"@[at - 1]);
                } else if at == 7 {
                    assert(new[last - 1] == added[6]);
                    assert(added[6] == "height"@[5]);
                } else if 9 <= at < 9 + value.len() {
                    assert(added[at] == value[at - 9]);
                    assert(value.contains(value[at - 9]));
                }
            } else if j >= end + s {
                lemma_occurs_chars(tag, pat, j - s);
                assert forall|k: int| 0 <= k < 6 implies tag[j - s + k] == #[trigger] pat[k] by {
                    assert(new[j + k] == pat[k]);
                    assert(tag[j - s + k] == new[j - s + k + s]);
                }
                assert(occurs_at(tag, pat, j - s));
            } else {
                assert(new[end + s - 1] == added[s - 1]);
                assert(new[j + (end + s - 1 - j)] == pat[end + s - 1 - j]);
            }
        }
    }
    lemma_find_first(new, pat, 0, start + s);
    assert(new[from - 1 + s] == tag[from - 1]);
    assert forall|k: int| from + s <= k < to + s implies #[trigger] new[k] != tag[to] by {
        assert(tag[k - s] == new[k - s + s]);
    }
    assert(new[to + s] == tag[to]);
    lemma_find_char_first(new, tag[to], from + s, to + s);
    assert(new.subrange(from + s, to + s) =~= tag.subrange(from, to));
}

/// What the sizes of a tag are made of does not disturb its other attributes.
proof fn lemma_sizes(n: u32)
    ensures
        ({
            let s = decimal(n as nat);
            &&& !s.contains('=')
            &&& !s.contains('\'')
            &&& !s.contains('"')
            &&& forall|k: int| 0 <= k < s.len() ==> !is_quote(#[trigger] s[k]) && s[k] != '='
        }),
        !"height"@.contains('='),
        !"width"@.contains('='),
        forall|k: int| 0 <= k < "width"@.len() ==> !is_quote(#[trigger] "width"@[k]),
        forall|k: int| 0 <= k < "height"@.len() ==> !is_quote(#[trigger] "height"@[k]),
{
    reveal_strlit("width");
    reveal_strlit("height");
    lemma_digits_are_plain(n);
    let s = decimal(n as nat);
    assert forall|k: int| 0 <= k < s.len() implies !is_quote(#[trigger] s[k]) && s[k] != '=' by {
        assert(s.contains(s[k]));
    }
}

/// The tag once a width that reads as a number was written anew.
proof fn lemma_width_is_rewritten(tag: Seq<char>, width: u32)
    requires
        attr_number(tag, "width"@) == Some(width),
    ensures
        ({
            let wide = with_attr(tag, "width"@, decimal(width as nat));
            let (c, d) = attr_span(tag, "width"@)->0;
            let shift = c + decimal(width as nat).len() - d;
            &&& 0 < c < d < tag.len()
            &&& attr_start(tag, "width"@) == Some(c - 7)
            &&& wide == tag.take(c) + decimal(width as nat) + tag.skip(d)
            &&& attr_start(wide, "width"@) == Some(c - 7)
            &&& attr_span(wide, "width"@) == Some((c, d + shift))
            &&& attr_text(wide, "width"@) == Some(decimal(width as nat))
            &&& attr_start(wide, "height"@) == match attr_start(tag, "height"@) {
                Some(start) => Some(moved(start, c, shift)),
                None => None,
            }
            &&& attr_span(wide, "height"@) == match attr_span(tag, "height"@) {
                Some((from, to)) => Some((moved(from, c, shift), moved(to, c, shift))),
                None => None,
            }
            &&& forall|k: int| c - 7 <= k <= d + shift ==> #[trigger] wide[k] != '>'
            &&& forall|k: int| c - 7 <= k <= d ==> #[trigger] tag[k] != '>'
        }),
{
    reveal_strlit("width");
    let w = decimal(width as nat);
    let wide = with_attr(tag, "width"@, w);
    let (c, d) = attr_span(tag, "width"@)->0;
    let text = tag.subrange(c, d);
    let pat = needle("width"@);
    lemma_attr_span(tag, "width"@);
    lemma_number_is_plain(text);
    lemma_sizes(width);
    assert forall|k: int| c <= k < d implies !is_quote(#[trigger] tag[k]) && tag[k] != '=' && tag[k]
        != '>' by {
        assert(tag[k] == text[k - c]);
    }
    lemma_attributes_move_along(tag, c, d, w, "width"@);
    lemma_attributes_move_along(tag, c, d, w, "height"@);
    law_written_attribute_is_read_back(tag, "width"@, w);
    lemma_find(tag, pat, 0);
    lemma_occurs_chars(tag, pat, c - 7);
    assert forall|k: int| c - 7 <= k <= d implies #[trigger] tag[k] != '>' by {
        if k < c - 1 {
            assert(tag[c - 7 + (k - (c - 7))] == pat[k - (c - 7)]);
        }
    }
    lemma_digits_are_plain(width);
    let shift = c + w.len() - d;
    assert forall|k: int| c - 7 <= k <= d + shift implies #[trigger] wide[k] != '>' by {
        if k < c {
            assert(wide[k] == tag[k]);
        } else if k < d + shift {
            assert(wide[k] == w[k - c]);
            assert(w.contains(w[k - c]));
        } else {
            assert(wide[k] == tag[d]);
        }
    }
}

/// A tag whose width reads as a number reads that number when it was rewritten,
/// whatever the natural size is, unless it holds a height whose quotes enclose
/// the width.
pub proof fn law_width_of_the_tag_stays(
    tag: Seq<char>,
    width: u32,
    natural_width: u32,
    natural_height: u32,
)
    requires
        image_path(tag) is Some,
        attr_number(tag, "width"@) == Some(width),
        attr_span(tag, "height"@) matches Some((from, to)) ==> {
            ||| attr_start(tag, "width"@) matches Some(start) && to < start
            ||| attr_span(tag, "width"@) matches Some((start, end)) && end < from
        },
    ensures
        attr_number(rewritten_tag(tag, Some((natural_width, natural_height))), "width"@) == Some(
            width,
        ),
{
    let height = height_for(width, natural_width, natural_height);
    let w = decimal(width as nat);
    let h = decimal(height as nat);
    let wide = with_attr(tag, "width"@, w);
    let new = with_attr(wide, "height"@, h);
    law_number_in_the_tag_wins(tag, width, natural_width, natural_height);
    lemma_width_is_rewritten(tag, width);
    law_written_number_is_read_back(width);
    lemma_sizes(height);
    lemma_attr_span(tag, "height"@);
    lemma_attr_span(wide, "height"@);
    lemma_last_char(wide, '>');
    let (c, d) = attr_span(wide, "width"@)->0;
    match attr_span(wide, "height"@) {
        Some((from, to)) => {
            assert(stands_apart(wide, "width"@, "height"@));
            law_other_attributes_stay(wide, "width"@, "height"@, h);
        },
        None => {
            if attr_start(wide, "height"@) is None {
                if let Some(end) = last_char(wide, '>') {
                    if end < c - 7 {
                        lemma_height_in_front(wide, end, h);
                    } else {
                        assert(wide[end] == '>');
                        assert(end > d);
                        law_other_attributes_stay(wide, "width"@, "height"@, h);
                    }
                }
            }
        },
    }
}

/// A tag whose width reads as a number, and that can be given a height, reads a
/// height when it was rewritten at which the image keeps its aspect ratio: the
/// whole number nearest to the width times the natural height over the natural
/// width (where 52 bits hold the product, and at least 1).
pub proof fn law_height_keeps_the_aspect_ratio(
    tag: Seq<char>,
    width: u32,
    natural_width: u32,
    natural_height: u32,
)
    requires
        image_path(tag) is Some,
        attr_number(tag, "width"@) == Some(width),
        attr_span(tag, "height"@) is Some || (attr_start(tag, "height"@) is None && tag.contains(
            '>',
        )),
        natural_width > 0,
        width * natural_height < 0x10_0000_0000_0000,
    ensures
        attr_number(rewritten_tag(tag, Some((natural_width, natural_height))), "height"@) matches Some(
            height,
        ) && {
            &&& height >= 1
            &&& height > 1 ==> 2 * (height * natural_width - width * natural_height)
                <= natural_width
            &&& height < u32::MAX ==> 2 * (width * natural_height - height * natural_width)
                < natural_width
        },
{
    let height = height_for(width, natural_width, natural_height);
    let w = decimal(width as nat);
    let h = decimal(height as nat);
    let wide = with_attr(tag, "width"@, w);
    law_number_in_the_tag_wins(tag, width, natural_width, natural_height);
    lemma_width_is_rewritten(tag, width);
    law_written_number_is_read_back(height);
    lemma_sizes(height);
    lemma_attr_span(wide, "height"@);
    let (c, d) = attr_span(tag, "width"@)->0;
    let shift = c + w.len() - d;
    if attr_span(tag, "height"@) is None {
        lemma_last_char(wide, '>');
        let k = choose|k: int| 0 <= k < tag.len() && tag[k] == '>';
        assert(k < c - 7 || k > d);
        assert(wide[if k < c { k } else { k + shift }] == '>');
        assert(last_char(wide, '>') is Some);
    }
    law_written_attribute_is_read_back(wide, "height"@, h);
    law_ratio_is_kept(width, natural_width, natural_height);
}

} // verus!
