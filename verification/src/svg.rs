//! The dimensions of an SVG image: from its width and height, or else from its
//! view box.
//!
//! The numbers are decimal fractions in the text of the image. Here they are
//! found and put to use; turning each into a whole number lies with the caller.

use vstd::prelude::*;

use crate::attribute::{attr_text, attr_value};
use crate::number::{is_digit, is_digit_char};
use crate::text::{chars_of, opt_text, string_of, texts};

verus! {

/// The numbers that give an image its size, as they are written in it.
pub struct SvgNumbers {
    pub width: Option<String>,
    pub height: Option<String>,
    pub view_box: Option<Vec<String>>,
}

/// The same numbers, rounded to whole numbers; None for what is not a number.
pub struct SvgSizes {
    pub width: Option<u32>,
    pub height: Option<u32>,
    pub view_box: Option<Vec<Option<u32>>>,
}

/// The first position at or after `i` that holds neither a digit nor a point.
pub open spec fn number_end(s: Seq<char>, i: int) -> int
    decreases s.len() - i,
{
    if i < s.len() && (is_digit(s[i]) || s[i] == '.') {
        number_end(s, i + 1)
    } else {
        i
    }
}

/// The digits and points that the value of an attribute begins with.
pub open spec fn number_text(svg: Seq<char>, name: Seq<char>) -> Option<Seq<char>> {
    match attr_text(svg, name) {
        Some(value) => Some(value.take(number_end(value, 0))),
        None => None,
    }
}

/// A character that separates the numbers of a view box.
pub open spec fn is_separator(c: char) -> bool {
    c == ' ' || c == '\t' || c == '\n' || c == '\x0C' || c == '\r' || c == ','
}

/// The first position at or after `i` that holds a separator, or the end.
pub open spec fn part_end(s: Seq<char>, i: int) -> int
    decreases s.len() - i,
{
    if i < s.len() && !is_separator(s[i]) {
        part_end(s, i + 1)
    } else {
        i
    }
}

/// The parts of `s` from position `i` on, between its separators; parts can be empty.
pub open spec fn parts_from(s: Seq<char>, i: int) -> Seq<Seq<char>>
    decreases s.len() - i,
{
    let end = part_end(s, i);
    if i <= end < s.len() {
        seq![s.subrange(i, end)] + parts_from(s, end + 1)
    } else {
        seq![s.subrange(i, s.len() as int)]
    }
}

/// The parts of the view box, whose name is written `viewBox` or else `viewbox`.
pub open spec fn view_box_parts(svg: Seq<char>) -> Option<Seq<Seq<char>>> {
    match attr_text(svg, "viewBox"@) {
        Some(value) => Some(parts_from(value, 0)),
        None => match attr_text(svg, "viewbox"@) {
            Some(value) => Some(parts_from(value, 0)),
            None => None,
        },
    }
}

/// The numbers among the parts of a view box, in order.
pub open spec fn known(parts: Seq<Option<u32>>) -> Seq<u32>
    decreases parts.len(),
{
    if parts.len() == 0 {
        seq![]
    } else {
        match parts.last() {
            Some(n) => known(parts.drop_last()).push(n),
            None => known(parts.drop_last()),
        }
    }
}

/// The size that the numbers give: the width and height where both are there,
/// and else the last two of the four numbers of the view box.
pub open spec fn svg_size(
    width: Option<u32>,
    height: Option<u32>,
    view_box: Option<Seq<Option<u32>>>,
) -> Option<(u32, u32)> {
    match (width, height, view_box) {
        (Some(w), Some(h), _) => Some((w, h)),
        (_, _, Some(parts)) => if known(parts).len() == 4 {
            Some((known(parts)[2], known(parts)[3]))
        } else {
            None
        },
        _ => None,
    }
}

/// An image with a width and a height has that size, whatever its view box is.
pub proof fn law_width_and_height_come_first(
    width: u32,
    height: u32,
    view_box: Option<Seq<Option<u32>>>,
)
    ensures
        svg_size(Some(width), Some(height), view_box) == Some((width, height)),
{
}

/// The numbers among parts that are followed by no further number.
proof fn lemma_known_of_prefix(parts: Seq<Option<u32>>, n: int)
    requires
        0 <= n <= parts.len(),
        forall|k: int| n <= k < parts.len() ==> #[trigger] parts[k] is None,
    ensures
        known(parts) == known(parts.take(n)),
    decreases parts.len() - n,
{
    if n == parts.len() {
        assert(parts.take(n) =~= parts);
    } else {
        assert(parts.last() == parts[parts.len() - 1]);
        lemma_known_of_prefix(parts.drop_last(), n);
        assert(parts.drop_last().take(n) =~= parts.take(n));
    }
}

/// The numbers among the parts, where the last of them stands at position `i`.
proof fn lemma_known_step(parts: Seq<Option<u32>>, i: int, value: u32)
    requires
        0 <= i < parts.len(),
        parts[i] == Some(value),
        forall|k: int| i < k < parts.len() ==> #[trigger] parts[k] is None,
    ensures
        known(parts) == known(parts.take(i)).push(value),
{
    lemma_known_of_prefix(parts, i + 1);
    assert(parts.take(i + 1).drop_last() =~= parts.take(i));
    assert(parts.take(i + 1).last() == parts[i]);
}

/// More parts hold no fewer numbers.
proof fn lemma_known_grows(parts: Seq<Option<u32>>, n: int)
    requires
        0 <= n <= parts.len(),
    ensures
        known(parts.take(n)).len() <= known(parts).len(),
    decreases parts.len() - n,
{
    if n == parts.len() {
        assert(parts.take(n) =~= parts);
    } else {
        lemma_known_grows(parts.drop_last(), n);
        assert(parts.drop_last().take(n) =~= parts.take(n));
    }
}

/// One number more among the parts up to position `i`.
proof fn lemma_known_counts(parts: Seq<Option<u32>>, from: int, i: int)
    requires
        0 <= from <= i < parts.len(),
        parts[i] is Some,
    ensures
        known(parts.take(i + 1)).len() >= known(parts.take(from)).len() + 1,
{
    assert(parts.take(i + 1).drop_last() =~= parts.take(i));
    assert(parts.take(i).take(from) =~= parts.take(from));
    lemma_known_grows(parts.take(i), from);
}

/// Where the width or the height is missing, or both, and exactly four parts of
/// the view box are numbers, the last two of these are the width and the height.
pub proof fn law_view_box_gives_the_size(
    width: Option<u32>,
    height: Option<u32>,
    parts: Seq<Option<u32>>,
    a: int,
    b: int,
    c: int,
    d: int,
)
    requires
        width is None || height is None,
        0 <= a < b < c < d < parts.len(),
        parts[a] is Some,
        parts[b] is Some,
        parts[c] is Some,
        parts[d] is Some,
        forall|k: int|
            0 <= k < parts.len() && k != a && k != b && k != c && k != d ==> #[trigger] parts[k] is None,
    ensures
        svg_size(width, height, Some(parts)) == Some((parts[c]->0, parts[d]->0)),
{
    lemma_known_step(parts, d, parts[d]->0);
    lemma_known_step(parts.take(d), c, parts[c]->0);
    assert(parts.take(d).take(c) =~= parts.take(c));
    lemma_known_step(parts.take(c), b, parts[b]->0);
    assert(parts.take(c).take(b) =~= parts.take(b));
    lemma_known_step(parts.take(b), a, parts[a]->0);
    assert(parts.take(b).take(a) =~= parts.take(a));
    lemma_known_of_prefix(parts.take(a), 0);
    assert(parts.take(a).take(0) =~= seq![]);
    assert(known(parts.take(a)) == Seq::<u32>::empty());
    assert(known(parts).len() == 4);
}

/// Where the width or the height is missing, five numbers in the view box give no
/// size.
pub proof fn law_five_numbers_give_no_size(
    width: Option<u32>,
    height: Option<u32>,
    parts: Seq<Option<u32>>,
    a: int,
    b: int,
    c: int,
    d: int,
    e: int,
)
    requires
        width is None || height is None,
        0 <= a < b < c < d < e < parts.len(),
        parts[a] is Some,
        parts[b] is Some,
        parts[c] is Some,
        parts[d] is Some,
        parts[e] is Some,
    ensures
        svg_size(width, height, Some(parts)) is None,
{
    lemma_known_counts(parts, 0, a);
    lemma_known_counts(parts, a + 1, b);
    lemma_known_counts(parts, b + 1, c);
    lemma_known_counts(parts, c + 1, d);
    lemma_known_counts(parts, d + 1, e);
    lemma_known_grows(parts, e + 1);
}

/// Where the width or the height is missing, fewer than four numbers in the view
/// box (at `a`, `b` and `c` at most) give no size, and neither does no view box.
pub proof fn law_three_numbers_give_no_size(
    width: Option<u32>,
    height: Option<u32>,
    parts: Seq<Option<u32>>,
    a: int,
    b: int,
    c: int,
)
    requires
        width is None || height is None,
        forall|k: int|
            0 <= k < parts.len() && k != a && k != b && k != c ==> #[trigger] parts[k] is None,
    ensures
        svg_size(width, height, Some(parts)) is None,
        svg_size(width, height, None) is None,
{
    lemma_few_known(parts, a, b, c);
}

/// Parts of which at most three are numbers.
proof fn lemma_few_known(parts: Seq<Option<u32>>, a: int, b: int, c: int)
    requires
        forall|k: int|
            0 <= k < parts.len() && k != a && k != b && k != c ==> #[trigger] parts[k] is None,
    ensures
        known(parts).len() <= (if 0 <= a < parts.len() { 1int } else { 0 }) + (if 0 <= b
            < parts.len() { 1int } else { 0 }) + (if 0 <= c < parts.len() { 1int } else { 0 }),
    decreases parts.len(),
{
    if parts.len() > 0 {
        assert(parts.last() == parts[parts.len() - 1]);
        lemma_few_known(parts.drop_last(), a, b, c);
    }
}

/// The number text of an attribute is the stretch of digits and points that its
/// value begins with, up to the first other character; there is none without a
/// value in quotes.
pub proof fn law_number_text_of_an_attribute(
    svg: Seq<char>,
    name: Seq<char>,
    number: Seq<char>,
    tail: Seq<char>,
)
    requires
        forall|k: int|
            0 <= k < number.len() ==> '0' <= #[trigger] number[k] <= '9' || number[k] == '.',
        tail.len() > 0 ==> !('0' <= tail[0] <= '9') && tail[0] != '.',
    ensures
        attr_text(svg, name) == Some(number + tail) ==> number_text(svg, name) == Some(number),
        attr_text(svg, name) is None ==> number_text(svg, name) is None,
{
    lemma_number_end(number, tail, 0);
    assert((number + tail).take(number.len() as int) =~= number);
}

/// The number ends where the digits and points end.
proof fn lemma_number_end(number: Seq<char>, tail: Seq<char>, i: int)
    requires
        0 <= i <= number.len(),
        forall|k: int|
            0 <= k < number.len() ==> '0' <= #[trigger] number[k] <= '9' || number[k] == '.',
        tail.len() > 0 ==> !('0' <= tail[0] <= '9') && tail[0] != '.',
    ensures
        number_end(number + tail, i) == number.len(),
    decreases number.len() - i,
{
    let value = number + tail;
    if i < number.len() {
        assert(value[i] == number[i]);
        lemma_number_end(number, tail, i + 1);
    } else if tail.len() > 0 {
        assert(value[i] == tail[0]);
    }
}

/// A view box without blank and comma is one part.
pub proof fn law_view_box_of_one_part(part: Seq<char>)
    requires
        forall|k: int|
            0 <= k < part.len() ==> {
                let c = #[trigger] part[k];
                c != ' ' && c != '\t' && c != '\n' && c != '\x0C' && c != '\r' && c != ','
            },
    ensures
        parts_from(part, 0) == seq![part],
{
    lemma_part_end(part, seq![], 0);
    assert(part + Seq::<char>::empty() =~= part);
    assert(part.subrange(0, part.len() as int) =~= part);
    assert(parts_from(part, 0) =~= seq![part]);
}

/// Each blank and each comma in a view box ends a part.
pub proof fn law_separators_end_a_part(part: Seq<char>, separator: char, more: Seq<char>)
    requires
        forall|k: int|
            0 <= k < part.len() ==> {
                let c = #[trigger] part[k];
                c != ' ' && c != '\t' && c != '\n' && c != '\x0C' && c != '\r' && c != ','
            },
        separator == ' ' || separator == '\t' || separator == '\n' || separator == '\x0C'
            || separator == '\r' || separator == ',',
    ensures
        parts_from(part + seq![separator] + more, 0) == seq![part] + parts_from(more, 0),
{
    let value = part + seq![separator] + more;
    let n = part.len() as int;
    assert(value =~= part + (seq![separator] + more));
    lemma_part_end(part, seq![separator] + more, 0);
    assert(value.subrange(0, n) =~= part);
    assert(value.skip(n + 1) =~= more);
    lemma_parts_of_rest(value, n + 1, more, 0);
}

/// The part ends where the first separator stands.
proof fn lemma_part_end(part: Seq<char>, tail: Seq<char>, i: int)
    requires
        0 <= i <= part.len(),
        forall|k: int| 0 <= k < part.len() ==> !is_separator(#[trigger] part[k]),
        tail.len() > 0 ==> is_separator(tail[0]),
    ensures
        part_end(part + tail, i) == part.len(),
    decreases part.len() - i,
{
    let value = part + tail;
    if i < part.len() {
        assert(value[i] == part[i]);
        lemma_part_end(part, tail, i + 1);
    } else if tail.len() > 0 {
        assert(value[i] == tail[0]);
    }
}

/// A part ends at the same distance in texts that go on alike.
proof fn lemma_part_end_of_rest(value: Seq<char>, n: int, rest: Seq<char>, i: int)
    requires
        0 <= n <= value.len(),
        value.skip(n) == rest,
        0 <= i <= rest.len(),
    ensures
        part_end(value, n + i) == n + part_end(rest, i),
        i <= part_end(rest, i) <= rest.len(),
    decreases rest.len() - i,
{
    if i < rest.len() {
        assert(rest[i] == value[n + i]);
        if !is_separator(rest[i]) {
            lemma_part_end_of_rest(value, n, rest, i + 1);
        }
    }
}

/// The parts from a position on are the parts of the text from there on.
proof fn lemma_parts_of_rest(value: Seq<char>, n: int, rest: Seq<char>, i: int)
    requires
        0 <= n <= value.len(),
        value.skip(n) == rest,
        0 <= i <= rest.len(),
    ensures
        parts_from(value, n + i) == parts_from(rest, i),
    decreases rest.len() - i,
{
    lemma_part_end_of_rest(value, n, rest, i);
    let end = part_end(rest, i);
    assert(value.subrange(n + i, n + end) =~= rest.subrange(i, end));
    if end < rest.len() {
        lemma_parts_of_rest(value, n, rest, end + 1);
    }
}

/// The view box is read from `viewBox`, and from `viewbox` only where that has no
/// value in quotes; there is none without either.
pub proof fn law_name_of_the_view_box(svg: Seq<char>)
    ensures
        attr_text(svg, "viewBox"@) matches Some(value) ==> view_box_parts(svg) == Some(
            parts_from(value, 0),
        ),
        attr_text(svg, "viewBox"@) is None ==> (attr_text(svg, "viewbox"@) matches Some(value)
            ==> view_box_parts(svg) == Some(parts_from(value, 0))),
        attr_text(svg, "viewBox"@) is None && attr_text(svg, "viewbox"@) is None
            ==> view_box_parts(svg) is None,
{
}

/// The digits and points that the value of the attribute `name` begins with, if
/// the attribute is there in quotes.
pub fn svg_number_attr(svg: &str, name: &str) -> (r: Option<String>)
    ensures
        opt_text(r) == number_text(svg@, name@),
{
    let value = match attr_value(svg, name) {
        Some(value) => value,
        None => {
            return None;
        },
    };
    let v = chars_of(value.as_str());
    let n: usize = v.len();
    let mut end: usize = 0;
    while end < n && (is_digit_char(v[end]) || v[end] == '.')
        invariant
            n == v@.len(),
            end <= n,
            number_end(v@, 0) == number_end(v@, end as int),
        decreases n - end,
    {
        end += 1;
    }
    assert(v@.take(end as int) =~= v@.subrange(0, end as int));
    Some(string_of(&v, 0, end))
}

fn is_separator_char(c: char) -> (r: bool)
    ensures
        r == is_separator(c),
{
    c == ' ' || c == '\t' || c == '\n' || c == '\x0C' || c == '\r' || c == ','
}

/// The parts of a view box between blanks and commas; parts can be empty.
fn split_view_box(value: &str) -> (r: Vec<String>)
    ensures
        texts(r@) == parts_from(value@, 0),
{
    let v = chars_of(value);
    let n: usize = v.len();
    let mut out: Vec<String> = Vec::new();
    let mut start: usize = 0;
    let mut end: usize = 0;
    assert(texts(out@) =~= seq![]);
    assert(texts(out@) + parts_from(v@, 0) =~= parts_from(v@, 0));
    while end < n
        invariant
            n == v@.len(),
            start <= end <= n,
            part_end(v@, start as int) == part_end(v@, end as int),
            parts_from(v@, 0) == texts(out@) + parts_from(v@, start as int),
        decreases n - end,
    {
        if is_separator_char(v[end]) {
            let ghost before = out@;
            let part = string_of(&v, start, end);
            out.push(part);
            assert(texts(out@) =~= texts(before).push(part@));
            assert(texts(out@) + parts_from(v@, end + 1) =~= texts(before) + parts_from(
                v@,
                start as int,
            ));
            start = end + 1;
        }
        end += 1;
    }
    let ghost before = out@;
    let part = string_of(&v, start, n);
    out.push(part);
    assert(texts(out@) =~= texts(before).push(part@));
    assert(parts_from(v@, start as int) =~= seq![part@]);
    out
}

/// The numbers that give the SVG image with the content `svg` its size, as they
/// are written in it.
pub fn svg_numbers(svg: &str) -> (r: SvgNumbers)
    ensures
        opt_text(r.width) == number_text(svg@, "width"@),
        opt_text(r.height) == number_text(svg@, "height"@),
        match r.view_box {
            Some(parts) => view_box_parts(svg@) == Some(texts(parts@)),
            None => view_box_parts(svg@) is None,
        },
{
    let value = match attr_value(svg, "viewBox") {
        Some(value) => Some(value),
        None => attr_value(svg, "viewbox"),
    };
    SvgNumbers {
        width: svg_number_attr(svg, "width"),
        height: svg_number_attr(svg, "height"),
        view_box: match value {
            Some(value) => Some(split_view_box(value.as_str())),
            None => None,
        },
    }
}

/// The size that the numbers of an SVG image give.
pub fn svg_dimensions(sizes: &SvgSizes) -> (r: Option<(u32, u32)>)
    ensures
        r == svg_size(
            sizes.width,
            sizes.height,
            match sizes.view_box {
                Some(parts) => Some(parts@),
                None => None,
            },
        ),
{
    if let (Some(width), Some(height)) = (sizes.width, sizes.height) {
        return Some((width, height));
    }
    let parts = match &sizes.view_box {
        Some(parts) => parts,
        None => {
            return None;
        },
    };
    let mut numbers: Vec<u32> = Vec::new();
    let mut i: usize = 0;
    assert(parts@.take(0) =~= seq![]);
    while i < parts.len()
        invariant
            i <= parts@.len(),
            numbers@ == known(parts@.take(i as int)),
        decreases parts@.len() - i,
    {
        assert(parts@.take(i + 1).drop_last() =~= parts@.take(i as int));
        if let Some(n) = parts[i] {
            numbers.push(n);
        }
        i += 1;
    }
    assert(parts@.take(parts@.len() as int) =~= parts@);
    if numbers.len() == 4 {
        Some((numbers[2], numbers[3]))
    } else {
        None
    }
}

} // verus!
