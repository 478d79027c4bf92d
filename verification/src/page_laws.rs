//! What rewriting the `img` tags of a page does to the page as a whole.

use vstd::prelude::*;

use crate::aspect::height_for;
use crate::attribute::{
    attr_number, attr_span, attr_start, attr_text, is_bare, is_quote, is_writable,
    law_last_write_stays, law_other_attributes_stay, law_writing_the_value_read_changes_nothing,
    law_written_attribute_is_read_back, lemma_attr_span, needle, new_attr, stands_apart, with_attr,
};
use crate::attribute_laws::lemma_stands_first;
use crate::html::{
    display_width, first_tag, image_path, image_paths, img_tags,
    law_query_and_fragment_do_not_matter, lemma_first_step, lemma_first_tag, path_end,
    rewritten_html, rewritten_tag, sized_tag, text_parts,
};
use crate::number::{decimal, is_digit, law_written_number_is_read_back, lemma_decimal};
use crate::text::{
    lemma_find, lemma_find_char, lemma_find_char_first, lemma_find_first, lemma_last_char_last,
    lemma_occurs_chars, occurs_at,
};
use crate::text_laws::{lemma_stands_at, stands_at, stands_first};

verus! {

/// The shape of an `img` tag in a page: it begins with `<img`, and ends with its only `>`.
pub open spec fn is_tag(tag: Seq<char>) -> bool {
    &&& tag.len() >= 5
    &&& tag[0] == '<'
    &&& tag[1] == 'i'
    &&& tag[2] == 'm'
    &&& tag[3] == 'g'
    &&& tag.last() == '>'
    &&& forall|k: int| 0 <= k < tag.len() - 1 ==> #[trigger] tag[k] != '>'
}

/// A name and a value that can be written into a tag without changing its shape.
pub open spec fn is_tame(name: Seq<char>, value: Seq<char>) -> bool {
    &&& name.len() > 0
    &&& name[0] != '<' && name[0] != 'i' && name[0] != 'm' && name[0] != 'g'
    &&& !name.contains('>')
    &&& !value.contains('>')
}

/// Text parts and tags in turn.
pub open spec fn interleave(parts: Seq<Seq<char>>, tags: Seq<Seq<char>>) -> Seq<char>
    decreases tags.len(),
{
    if tags.len() == 0 {
        parts[0]
    } else {
        parts[0] + tags[0] + interleave(parts.skip(1), tags.skip(1))
    }
}

/// The `img` tags of a page, each rewritten for the natural size of its image.
pub open spec fn rewritten_tags(
    tags: Seq<Seq<char>>,
    natural: Seq<Option<(u32, u32)>>,
) -> Seq<Seq<char>> {
    Seq::new(tags.len(), |i: int| rewritten_tag(tags[i], natural[i]))
}

/// The first tag of a page has the shape of a tag.
proof fn lemma_first_tag_is_tag(html: Seq<char>)
    requires
        first_tag(html) is Some,
    ensures
        first_tag(html) matches Some((start, end)) && is_tag(html.subrange(start, end + 1)),
{
    reveal_strlit("<img");
    lemma_first_tag(html);
    let (start, end) = first_tag(html)->0;
    let tag = html.subrange(start, end + 1);
    lemma_find(html, "<img"@, 0);
    lemma_occurs_chars(html, "<img"@, start);
    lemma_find_char(html, '>', start);
    assert(html[start + 0] == "<img"@[0] && html[start + 1] == "<img"@[1] && html[start + 2]
        == "<img"@[2] && html[start + 3] == "<img"@[3]);
    assert forall|k: int| 0 <= k < tag.len() - 1 implies #[trigger] tag[k] != '>' by {
        assert(tag[k] == html[start + k]);
    }
}

/// Setting an attribute keeps the shape of a tag.
proof fn lemma_with_attr_is_tag(tag: Seq<char>, name: Seq<char>, value: Seq<char>)
    requires
        is_tag(tag),
        is_tame(name, value),
    ensures
        is_tag(with_attr(tag, name, value)),
{
    let new = with_attr(tag, name, value);
    lemma_attr_span(tag, name);
    lemma_last_char_last(tag, '>', tag.len() - 1);
    assert forall|k: int| 0 <= k < value.len() implies #[trigger] value[k] != '>' by {
        assert(value.contains(value[k]));
    }
    assert forall|k: int| 0 <= k < name.len() implies #[trigger] name[k] != '>' by {
        assert(name.contains(name[k]));
    }
    match attr_span(tag, name) {
        Some((from, to)) => {
            let start = from - name.len() - 2;
            assert(start >= 4) by {
                lemma_find(tag, needle(name), 0);
                lemma_occurs_chars(tag, needle(name), start);
                assert(tag[start + 0] == needle(name)[0]);
            }
            assert(to < tag.len() - 1);
            let shift = from + value.len() - to;
            assert forall|k: int| 0 <= k < new.len() - 1 implies #[trigger] new[k] != '>' by {
                if k < from {
                    assert(new[k] == tag[k]);
                } else if k < from + value.len() {
                    assert(new[k] == value[k - from]);
                } else {
                    assert(new[k] == tag[k - shift]);
                }
            }
        },
        None => {
            if attr_start(tag, name) is None {
                let end = tag.len() - 1;
                let added = new_attr(name, value);
                assert forall|k: int| 0 <= k < added.len() implies #[trigger] added[k] != '>' by {
                    if 1 <= k < 1 + name.len() {
                        assert(added[k] == name[k - 1]);
                    } else if name.len() + 3 <= k < added.len() - 1 {
                        assert(added[k] == value[k - name.len() - 3]);
                    }
                }
                assert(new.len() == tag.len() + added.len());
                assert forall|k: int| 0 <= k < new.len() - 1 implies #[trigger] new[k] != '>' by {
                    if k < end {
                        assert(new[k] == tag[k]);
                    } else {
                        assert(new[k] == added[k - end]);
                    }
                }
                assert(new.last() == tag[end]);
            }
        },
    }
}

/// The names and values that sizing a tag writes.
proof fn lemma_sizes_are_tame(n: u32)
    ensures
        is_tame("width"@, decimal(n as nat)),
        is_tame("height"@, decimal(n as nat)),
        !"width"@.contains('='),
        !"height"@.contains('='),
        forall|k: int| 0 <= k < "width"@.len() ==> !is_quote(#[trigger] "width"@[k]),
        !decimal(n as nat).contains('='),
        !decimal(n as nat).contains('\''),
        !decimal(n as nat).contains('"'),
{
    reveal_strlit("width");
    reveal_strlit("height");
    lemma_decimal(n as nat);
    assert forall|c: char| decimal(n as nat).contains(c) implies is_digit(c) by {
        let k = choose|k: int| 0 <= k < decimal(n as nat).len() && decimal(n as nat)[k] == c;
        assert(is_digit(decimal(n as nat)[k]));
    }
}

/// Rewriting keeps the shape of a tag.
proof fn lemma_rewritten_is_tag(tag: Seq<char>, natural: Option<(u32, u32)>)
    requires
        is_tag(tag),
    ensures
        is_tag(rewritten_tag(tag, natural)),
{
    if let Some((w, h)) = natural {
        let width = display_width(tag, w);
        let height = height_for(width, w, h);
        lemma_sizes_are_tame(width);
        lemma_sizes_are_tame(height);
        let wide = with_attr(tag, "width"@, decimal(width as nat));
        lemma_with_attr_is_tag(tag, "width"@, decimal(width as nat));
        lemma_with_attr_is_tag(wide, "height"@, decimal(height as nat));
    }
}

/// A tag that takes the place of the first tag is the first tag, whatever follows it.
proof fn lemma_replaced_tag(html: Seq<char>, tag: Seq<char>, rest: Seq<char>)
    requires
        first_tag(html) is Some,
        is_tag(tag),
    ensures
        first_tag(html) matches Some((start, end)) && first_tag(html.take(start) + tag + rest)
            == Some((start, start + tag.len() - 1)),
{
    reveal_strlit("<img");
    let pat = "<img"@;
    lemma_first_tag(html);
    lemma_first_tag_is_tag(html);
    let (start, end) = first_tag(html)->0;
    let first = html.subrange(start, end + 1);
    let new = html.take(start) + tag + rest;
    lemma_find(html, pat, 0);
    assert forall|k: int| 0 <= k < start + 4 implies #[trigger] new[k] == html[k] by {
        if k >= start {
            assert(first[k - start] == html[k]);
            assert(new[k] == tag[k - start]);
        }
    }
    assert forall|j: int| 0 <= j <= start implies occurs_at(html, pat, j) == #[trigger] occurs_at(
        new,
        pat,
        j,
    ) by {
        lemma_occurs_chars(html, pat, j);
        lemma_occurs_chars(new, pat, j);
    }
    lemma_find_first(new, pat, 0, start);
    let last = start + tag.len() - 1;
    assert(new[last] == tag[tag.len() - 1]);
    assert forall|k: int| start <= k < last implies #[trigger] new[k] != '>' by {
        assert(new[k] == tag[k - start]);
    }
    lemma_find_char_first(new, '>', start, last);
}

/// Rewriting a page changes nothing but its `img` tags: the text around them
/// stays, their number and order stay, and each is rewritten for its own image.
pub proof fn law_only_tags_change(html: Seq<char>, natural: Seq<Option<(u32, u32)>>)
    requires
        natural.len() == img_tags(html).len(),
    ensures
        text_parts(rewritten_html(html, natural)) == text_parts(html),
        img_tags(rewritten_html(html, natural)) == rewritten_tags(img_tags(html), natural),
    decreases html.len(),
{
    let new = rewritten_html(html, natural);
    let tags = img_tags(html);
    match first_tag(html) {
        None => {
            assert(img_tags(new) =~= rewritten_tags(tags, natural));
        },
        Some((start, end)) => {
            lemma_first_step(html, natural);
            lemma_first_tag_is_tag(html);
            let tag = html.subrange(start, end + 1);
            let rest = html.skip(end + 1);
            let tag2 = rewritten_tag(tag, natural[0]);
            let rest2 = rewritten_html(rest, natural.skip(1));
            law_only_tags_change(rest, natural.skip(1));
            lemma_rewritten_is_tag(tag, natural[0]);
            lemma_replaced_tag(html, tag2, rest2);
            let last = start + tag2.len() - 1;
            assert(new == html.take(start) + tag2 + rest2);
            assert(new.skip(last + 1) =~= rest2);
            assert(new.take(start) =~= html.take(start));
            assert(new.subrange(start, last + 1) =~= tag2);
            lemma_first_step(new, natural);
            assert forall|i: int| 0 <= i < tags.len() implies #[trigger] img_tags(new)[i]
                == rewritten_tags(tags, natural)[i] by {
                if i > 0 {
                    assert(img_tags(new)[i] == img_tags(rest2)[i - 1]);
                    assert(tags[i] == img_tags(rest)[i - 1]);
                }
            }
            assert(img_tags(new) =~= rewritten_tags(tags, natural));
        },
    }
}

/// A page consists of its text parts and its `img` tags in turn, and a
/// rewritten one of the same text parts and the rewritten tags.
pub proof fn law_page_is_text_and_tags(html: Seq<char>, natural: Seq<Option<(u32, u32)>>)
    requires
        natural.len() == img_tags(html).len(),
    ensures
        text_parts(html).len() == img_tags(html).len() + 1,
        html == interleave(text_parts(html), img_tags(html)),
        rewritten_html(html, natural) == interleave(
            text_parts(html),
            rewritten_tags(img_tags(html), natural),
        ),
    decreases html.len(),
{
    if let Some((start, end)) = first_tag(html) {
        lemma_first_step(html, natural);
        let rest = html.skip(end + 1);
        let tags = img_tags(html);
        let parts = text_parts(html);
        law_page_is_text_and_tags(rest, natural.skip(1));
        assert(parts.skip(1) =~= text_parts(rest));
        assert(tags.skip(1) =~= img_tags(rest));
        assert(rewritten_tags(tags, natural).skip(1) =~= rewritten_tags(
            img_tags(rest),
            natural.skip(1),
        ));
        assert(html =~= html.take(start) + html.subrange(start, end + 1) + rest);
    }
}

/// A page in which no natural size is known stays as it is.
pub proof fn law_unknown_sizes_change_nothing(html: Seq<char>, natural: Seq<Option<(u32, u32)>>)
    requires
        natural.len() == img_tags(html).len(),
        forall|i: int| 0 <= i < natural.len() ==> #[trigger] natural[i] is None,
    ensures
        rewritten_html(html, natural) == html,
{
    law_page_is_text_and_tags(html, natural);
    assert(rewritten_tags(img_tags(html), natural) =~= img_tags(html)) by {
        assert forall|i: int| 0 <= i < natural.len() implies #[trigger] rewritten_tags(
            img_tags(html),
            natural,
        )[i] == img_tags(html)[i] by {
            assert(natural[i] is None);
        }
    }
}

/// The tag once its width is set.
pub open spec fn wide_tag(tag: Seq<char>, natural_width: u32) -> Seq<char> {
    with_attr(tag, "width"@, decimal(display_width(tag, natural_width) as nat))
}

/// The width and height that a tag was given can be read from it, where both can
/// be set and the height that is there does not enclose the width in its quotes.
pub proof fn law_size_is_read_back(tag: Seq<char>, natural_width: u32, natural_height: u32)
    requires
        is_writable(tag, "width"@),
        is_writable(wide_tag(tag, natural_width), "height"@),
        stands_apart(wide_tag(tag, natural_width), "width"@, "height"@),
    ensures
        ({
            let width = display_width(tag, natural_width);
            let sized = sized_tag(tag, natural_width, natural_height);
            &&& attr_text(sized, "width"@) == Some(decimal(width as nat))
            &&& attr_number(sized, "width"@) == Some(width)
            &&& attr_text(sized, "height"@) == Some(
                decimal(height_for(width, natural_width, natural_height) as nat),
            )
            &&& attr_number(sized, "height"@) == Some(
                height_for(width, natural_width, natural_height),
            )
        }),
{
    let width = display_width(tag, natural_width);
    let height = height_for(width, natural_width, natural_height);
    let w = decimal(width as nat);
    let h = decimal(height as nat);
    let wide = with_attr(tag, "width"@, w);
    lemma_sizes_are_tame(width);
    lemma_sizes_are_tame(height);
    lemma_attr_span(tag, "width"@);
    lemma_attr_span(wide, "height"@);
    law_written_attribute_is_read_back(tag, "width"@, w);
    law_written_attribute_is_read_back(wide, "height"@, h);
    law_other_attributes_stay(wide, "width"@, "height"@, h);
    law_written_number_is_read_back(width);
    law_written_number_is_read_back(height);
}

/// The width of the tag can be set, or it stands there without quotes; and a
/// height that can be set does not enclose the width in its quotes.
pub open spec fn takes_size(tag: Seq<char>, natural_width: u32) -> bool {
    let wide = wide_tag(tag, natural_width);
    &&& is_writable(tag, "width"@) || is_bare(tag, "width"@)
    &&& is_writable(wide, "height"@) ==> stands_apart(wide, "width"@, "height"@)
}

/// Giving a tag its size a second time changes nothing.
pub proof fn law_sizing_twice_is_sizing_once(
    tag: Seq<char>,
    natural_width: u32,
    natural_height: u32,
)
    requires
        takes_size(tag, natural_width),
    ensures
        sized_tag(sized_tag(tag, natural_width, natural_height), natural_width, natural_height)
            == sized_tag(tag, natural_width, natural_height),
{
    let width = display_width(tag, natural_width);
    let height = height_for(width, natural_width, natural_height);
    let w = decimal(width as nat);
    let h = decimal(height as nat);
    let wide = wide_tag(tag, natural_width);
    let sized = with_attr(wide, "height"@, h);
    lemma_sizes_are_tame(width);
    lemma_sizes_are_tame(height);
    lemma_attr_span(tag, "width"@);
    lemma_attr_span(wide, "height"@);
    law_written_number_is_read_back(width);
    if is_writable(tag, "width"@) {
        law_written_attribute_is_read_back(tag, "width"@, w);
    }
    if is_writable(wide, "height"@) {
        law_other_attributes_stay(wide, "width"@, "height"@, h);
    }
    assert(attr_text(sized, "width"@) == attr_text(wide, "width"@));
    assert(display_width(sized, natural_width) == width);
    assert(with_attr(sized, "width"@, w) == sized) by {
        if is_writable(tag, "width"@) {
            law_writing_the_value_read_changes_nothing(sized, "width"@);
        }
    }
    law_last_write_stays(wide, "height"@, h, h);
}

/// The value in quotes of `name` stands in the query or the fragment of the `src` value.
pub open spec fn stands_in_query(tag: Seq<char>, name: Seq<char>) -> bool {
    match (attr_span(tag, "src"@), attr_span(tag, name)) {
        (Some((from, to)), Some((name_from, name_to))) => {
            &&& from + path_end(tag.subrange(from, to), 0) < name_from
            &&& name_to < to
        },
        _ => false,
    }
}

/// Setting `name` leaves the path of the image alone: the two attributes stand
/// apart, or `name` stands behind the path in the `src` value.
pub open spec fn spares_path(tag: Seq<char>, name: Seq<char>) -> bool {
    stands_apart(tag, "src"@, name) || stands_in_query(tag, name)
}

/// Setting an attribute to a number behind the path in the `src` value leaves the path.
proof fn lemma_query_is_changed(tag: Seq<char>, name: Seq<char>, value: Seq<char>)
    requires
        stands_in_query(tag, name),
        !value.contains('\''),
        !value.contains('"'),
    ensures
        image_path(with_attr(tag, name, value)) == image_path(tag),
{
    let new = with_attr(tag, name, value);
    let pat = needle("src"@);
    let (from, to) = attr_span(tag, "src"@)->0;
    let (c, d) = attr_span(tag, name)->0;
    lemma_attr_span(tag, "src"@);
    lemma_attr_span(tag, name);
    lemma_find(tag, pat, 0);
    let start = from - "src"@.len() - 2;
    let shift = c + value.len() - d;
    let src = tag.subrange(from, to);
    let n = path_end(src, 0);
    lemma_path_end_inside(src, 0);
    assert forall|j: int| j <= start implies occurs_at(tag, pat, j) == #[trigger] occurs_at(
        new,
        pat,
        j,
    ) by {
        lemma_occurs_chars(tag, pat, j);
        lemma_occurs_chars(new, pat, j);
    }
    lemma_find_first(new, pat, 0, start);
    let quote = tag[to];
    assert(new[from - 1] == quote);
    assert forall|k: int| from <= k < to + shift implies #[trigger] new[k] != quote by {
        if k < c {
            assert(new[k] == tag[k]);
        } else if k < c + value.len() {
            assert(new[k] == value[k - c]);
            assert(value.contains(value[k - c]));
        } else {
            assert(new[k] == tag[k - shift]);
        }
    }
    assert(new[to + shift] == tag[to]);
    lemma_find_char_first(new, quote, from, to + shift);
    let changed = new.subrange(from, to + shift);
    let mark = src[n];
    assert(changed[n] == mark) by {
        assert(new[from + n] == tag[from + n]);
    }
    assert(src =~= src.take(n).push(mark) + src.skip(n + 1));
    assert(changed =~= src.take(n).push(mark) + changed.skip(n + 1)) by {
        assert forall|k: int| 0 <= k < n implies #[trigger] changed[k] == src[k] by {
            assert(new[from + k] == tag[from + k]);
        }
    }
    law_query_and_fragment_do_not_matter(src.take(n), mark, src.skip(n + 1));
    law_query_and_fragment_do_not_matter(src.take(n), mark, changed.skip(n + 1));
}

/// The path ends at a query or fragment mark, or with the text.
proof fn lemma_path_end_inside(src: Seq<char>, i: int)
    requires
        0 <= i <= src.len(),
    ensures
        i <= path_end(src, i) <= src.len(),
        path_end(src, i) < src.len() ==> src[path_end(src, i)] == '?' || src[path_end(src, i)]
            == '#',
    decreases src.len() - i,
{
    if i < src.len() && src[i] != '?' && src[i] != '#' {
        lemma_path_end_inside(src, i + 1);
    }
}

/// A tag that was given its size shows the same image file as before, where
/// neither the width nor the height that is there encloses the `src` attribute
/// in its quotes or stands in the path itself.
pub proof fn law_sizing_keeps_the_image(tag: Seq<char>, natural_width: u32, natural_height: u32)
    requires
        spares_path(tag, "width"@),
        spares_path(wide_tag(tag, natural_width), "height"@),
    ensures
        image_path(sized_tag(tag, natural_width, natural_height)) == image_path(tag),
{
    let width = display_width(tag, natural_width);
    let height = height_for(width, natural_width, natural_height);
    let w = decimal(width as nat);
    let h = decimal(height as nat);
    let wide = wide_tag(tag, natural_width);
    lemma_sizes_are_tame(width);
    lemma_sizes_are_tame(height);
    reveal_strlit("src");
    assert forall|k: int| 0 <= k < "src"@.len() implies !is_quote(#[trigger] "src"@[k]) by {}
    if stands_apart(tag, "src"@, "width"@) {
        law_other_attributes_stay(tag, "src"@, "width"@, w);
    } else {
        lemma_query_is_changed(tag, "width"@, w);
    }
    if stands_apart(wide, "src"@, "height"@) {
        law_other_attributes_stay(wide, "src"@, "height"@, h);
    } else {
        lemma_query_is_changed(wide, "height"@, h);
    }
}

/// A rewritten page shows the same image files as before, tag by tag, so that
/// their natural sizes are the same.
pub proof fn law_rewriting_keeps_the_images(html: Seq<char>, natural: Seq<Option<(u32, u32)>>)
    requires
        natural.len() == img_tags(html).len(),
        forall|i: int|
            #![trigger natural[i]]
            0 <= i < natural.len() ==> (natural[i] matches Some((width, height)) ==> (image_path(
                img_tags(html)[i],
            ) is Some ==> spares_path(img_tags(html)[i], "width"@) && spares_path(
                wide_tag(img_tags(html)[i], width),
                "height"@,
            ))),
    ensures
        image_paths(rewritten_html(html, natural)) == image_paths(html),
{
    let tags = img_tags(html);
    law_only_tags_change(html, natural);
    assert forall|i: int| 0 <= i < tags.len() implies #[trigger] image_paths(
        rewritten_html(html, natural),
    )[i] == image_paths(html)[i] by {
        if let Some((width, height)) = natural[i] {
            if image_path(tags[i]) is Some {
                law_sizing_keeps_the_image(tags[i], width, height);
            }
        }
    }
    assert(image_paths(rewritten_html(html, natural)) =~= image_paths(html));
}

/// Rewriting a page a second time changes nothing, where each tag that is given
/// a size can take one.
pub proof fn law_rewriting_twice_is_rewriting_once(
    html: Seq<char>,
    natural: Seq<Option<(u32, u32)>>,
)
    requires
        natural.len() == img_tags(html).len(),
        forall|i: int|
            #![trigger natural[i]]
            0 <= i < natural.len() ==> (natural[i] matches Some((width, height)) ==> (image_path(
                img_tags(html)[i],
            ) is Some ==> takes_size(img_tags(html)[i], width))),
    ensures
        rewritten_html(rewritten_html(html, natural), natural) == rewritten_html(html, natural),
{
    let new = rewritten_html(html, natural);
    let tags = img_tags(html);
    law_only_tags_change(html, natural);
    law_page_is_text_and_tags(html, natural);
    law_page_is_text_and_tags(new, natural);
    let once = rewritten_tags(tags, natural);
    assert(rewritten_tags(once, natural) =~= once) by {
        assert forall|i: int| 0 <= i < tags.len() implies #[trigger] rewritten_tags(
            once,
            natural,
        )[i] == once[i] by {
            if let Some((width, height)) = natural[i] {
                if image_path(tags[i]) is Some {
                    law_sizing_twice_is_sizing_once(tags[i], width, height);
                }
            }
        }
    }
}

/// The first tag of a page goes from its first `<img` to the next `>`. What
/// stands in front of it stays, it is rewritten for the first natural size, and
/// what follows is rewritten like a page of its own for the others.
pub proof fn law_first_tag_of_a_page(
    text: Seq<char>,
    tag: Seq<char>,
    rest: Seq<char>,
    natural: Seq<Option<(u32, u32)>>,
)
    requires
        tag.len() > 0,
        tag.last() == '>',
        !tag.drop_last().contains('>'),
        stands_first(text + tag + rest, "<img"@, text.len() as int),
    ensures
        rewritten_html(text + tag + rest, natural) == text + rewritten_tag(tag, natural[0])
            + rewritten_html(rest, natural.skip(1)),
        img_tags(text + tag + rest) == seq![tag] + img_tags(rest),
        image_paths(text + tag + rest) == seq![image_path(tag)] + image_paths(rest),
{
    let html = text + tag + rest;
    let start = text.len() as int;
    let end = start + tag.len() - 1;
    lemma_stands_first(html, "<img"@, start);
    assert forall|k: int| start <= k < end implies #[trigger] html[k] != '>' by {
        assert(html[k] == tag.drop_last()[k - start]);
        assert(tag.drop_last().contains(tag.drop_last()[k - start]));
    }
    assert(html[end] == tag[tag.len() - 1]);
    lemma_find_char_first(html, '>', start, end);
    lemma_first_step(html, natural);
    assert(html.subrange(start, end + 1) =~= tag);
    assert(html.take(start) =~= text);
    assert(html.skip(end + 1) =~= rest);
    assert(image_paths(html) =~= seq![image_path(tag)] + image_paths(rest));
}

/// A page in which no `<img` is followed by a `>` has no tags, and stays as it is.
pub proof fn law_page_without_tags_stays(html: Seq<char>, natural: Seq<Option<(u32, u32)>>)
    requires
        forall|j: int, k: int|
            #![trigger stands_at(html, "<img"@, j), html[k]]
            stands_at(html, "<img"@, j) && j <= k < html.len() ==> html[k] != '>',
    ensures
        rewritten_html(html, natural) == html,
        img_tags(html) == Seq::<Seq<char>>::empty(),
        image_paths(html) == Seq::<Option<Seq<char>>>::empty(),
{
    lemma_first_tag(html);
    if let Some((start, end)) = first_tag(html) {
        lemma_find(html, "<img"@, 0);
        lemma_stands_at(html, "<img"@, start);
        lemma_find_char(html, '>', start);
        assert(html[end] == '>');
    }
    assert(image_paths(html) =~= seq![]);
}

} // verus!
