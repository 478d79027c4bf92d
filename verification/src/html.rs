//! The `img` tags of an HTML page: where their images lie, and giving them the
//! dimensions at which the images keep their aspect ratio.

use vstd::prelude::*;

use crate::aspect::{display_height, height_for};
use crate::attribute::{attr_number, attr_text, attr_u32, attr_value, set_attr_value, with_attr};
use crate::number::{decimal, decimal_string};
use crate::text::{
    chars_of, find, find_char, find_char_from, find_from, lemma_find, lemma_find_char,
    lemma_find_char_skip, lemma_find_skip, matches_at,
    opt_text, push_range, push_text, starts_with, string_of,
};

verus! {

/// The first position that holds `?` or `#`, or the end of the text.
pub open spec fn path_end(src: Seq<char>, i: int) -> int
    decreases src.len() - i,
{
    if i >= src.len() || src[i] == '?' || src[i] == '#' {
        i
    } else {
        path_end(src, i + 1)
    }
}

/// An image that is not a file of the page: one at a web address, or one in the tag itself.
pub open spec fn is_remote(path: Seq<char>) -> bool {
    starts_with(path, "http://"@) || starts_with(path, "https://"@) || starts_with(path, "data:"@)
}

/// The path that a `src` value gives: without query and fragment, and without a
/// leading `./`. None for an image that is not a file of the page.
pub open spec fn source_path(src: Seq<char>) -> Option<Seq<char>> {
    let path = src.take(path_end(src, 0));
    if is_remote(path) {
        None
    } else if starts_with(path, "./"@) {
        Some(path.skip(2))
    } else {
        Some(path)
    }
}

/// The path of the image that a tag shows.
pub open spec fn image_path(tag: Seq<char>) -> Option<Seq<char>> {
    match attr_text(tag, "src"@) {
        Some(src) => source_path(src),
        None => None,
    }
}

/// The width at which a tag shows its image: its own, or else the natural one.
pub open spec fn display_width(tag: Seq<char>, natural_width: u32) -> u32 {
    match attr_number(tag, "width"@) {
        Some(width) => width,
        None => natural_width,
    }
}

/// `tag` with the width and height set at which its image, of the given natural
/// size, keeps its aspect ratio.
pub open spec fn sized_tag(tag: Seq<char>, natural_width: u32, natural_height: u32) -> Seq<char> {
    let width = display_width(tag, natural_width);
    let height = height_for(width, natural_width, natural_height);
    with_attr(
        with_attr(tag, "width"@, decimal(width as nat)),
        "height"@,
        decimal(height as nat),
    )
}

/// `tag`, sized where it shows an image of the page whose natural size is known.
pub open spec fn rewritten_tag(tag: Seq<char>, natural: Option<(u32, u32)>) -> Seq<char> {
    match natural {
        Some((width, height)) => if image_path(tag) is Some {
            sized_tag(tag, width, height)
        } else {
            tag
        },
        None => tag,
    }
}

/// Where the first `img` tag of `html` begins and where its `>` stands.
pub open spec fn first_tag(html: Seq<char>) -> Option<(int, int)> {
    match find(html, "<img"@, 0) {
        Some(start) => match find_char(html, '>', start) {
            Some(end) => Some((start, end)),
            None => None,
        },
        None => None,
    }
}

/// The `img` tags of `html`, from `<img` to the next `>`, in order.
pub open spec fn img_tags(html: Seq<char>) -> Seq<Seq<char>>
    decreases html.len(),
{
    match first_tag(html) {
        Some((start, end)) => if 0 <= start <= end < html.len() {
            seq![html.subrange(start, end + 1)] + img_tags(html.skip(end + 1))
        } else {
            seq![]
        },
        None => seq![],
    }
}

/// The image files that the tags of a page show, in order.
pub open spec fn image_paths(html: Seq<char>) -> Seq<Option<Seq<char>>> {
    img_tags(html).map_values(|tag: Seq<char>| image_path(tag))
}

/// The text in front of, between and behind the `img` tags of `html`, in order.
pub open spec fn text_parts(html: Seq<char>) -> Seq<Seq<char>>
    decreases html.len(),
{
    match first_tag(html) {
        Some((start, end)) => if 0 <= start <= end < html.len() {
            seq![html.take(start)] + text_parts(html.skip(end + 1))
        } else {
            seq![html]
        },
        None => seq![html],
    }
}

/// `html` with each `img` tag rewritten for the natural size of its image.
pub open spec fn rewritten_html(html: Seq<char>, natural: Seq<Option<(u32, u32)>>) -> Seq<char>
    decreases html.len(),
{
    match first_tag(html) {
        Some((start, end)) => if 0 <= start <= end < html.len() {
            html.take(start) + rewritten_tag(html.subrange(start, end + 1), natural[0])
                + rewritten_html(html.skip(end + 1), natural.skip(1))
        } else {
            html
        },
        None => html,
    }
}

/// The end of the path is the same in a longer text, and at its mark at the latest.
proof fn lemma_path_end(path: Seq<char>, mark: char, rest: Seq<char>, i: int)
    requires
        0 <= i <= path.len(),
        mark == '?' || mark == '#',
    ensures
        path_end(path.push(mark) + rest, i) == path_end(path, i),
        i <= path_end(path, i) <= path.len(),
    decreases path.len() - i,
{
    let src = path.push(mark) + rest;
    if i < path.len() {
        assert(src[i] == path[i]);
        if path[i] != '?' && path[i] != '#' {
            lemma_path_end(path, mark, rest, i + 1);
        }
    } else {
        assert(src[i] == mark);
    }
}

/// A query or a fragment does not change which image file a `src` value names.
pub proof fn law_query_and_fragment_do_not_matter(
    path: Seq<char>,
    mark: char,
    rest: Seq<char>,
)
    requires
        mark == '?' || mark == '#',
    ensures
        source_path(path.push(mark) + rest) == source_path(path),
{
    lemma_path_end(path, mark, rest, 0);
    let n = path_end(path, 0);
    assert((path.push(mark) + rest).take(n) =~= path.take(n));
}

/// The first tag lies inside the page, and `<img` comes before its `>`.
pub proof fn lemma_first_tag(html: Seq<char>)
    ensures
        first_tag(html) matches Some((start, end)) ==> 0 <= start && start + 4 <= end < html.len(),
{
    reveal_strlit("<img");
    lemma_find(html, "<img"@, 0);
    if let Some(start) = find(html, "<img"@, 0) {
        lemma_find_char(html, '>', start);
        assert(html.subrange(start, start + 4) == "<img"@);
        assert forall|k: int| 0 <= k < 4 implies html[start + k] == #[trigger] "<img"@[k] by {
            assert(html.subrange(start, start + 4)[k] == html[start + k]);
        }
        if let Some(end) = find_char(html, '>', start) {
            if end < start + 4 {
                assert(html[start + (end - start)] == "<img"@[end - start]);
            }
        }
    }
}

/// The first tag, its text and the rest make up the page.
pub proof fn lemma_first_step(html: Seq<char>, natural: Seq<Option<(u32, u32)>>)
    requires
        first_tag(html) is Some,
    ensures
        first_tag(html) matches Some((start, end)) && {
            let tag = html.subrange(start, end + 1);
            let rest = html.skip(end + 1);
            &&& 0 <= start
            &&& start + 4 <= end < html.len()
            &&& img_tags(html) == seq![tag] + img_tags(rest)
            &&& text_parts(html) == seq![html.take(start)] + text_parts(rest)
            &&& rewritten_html(html, natural) == html.take(start) + rewritten_tag(tag, natural[0])
                + rewritten_html(rest, natural.skip(1))
        },
{
    lemma_first_tag(html);
}

/// The path of the image file that a `src` value names, relative to the page.
/// None for images at web addresses and for images in the tag itself.
pub fn image_src_path(src: &str) -> (r: Option<String>)
    ensures
        opt_text(r) == source_path(src@),
{
    let v = chars_of(src);
    let n: usize = v.len();
    let mut end: usize = 0;
    while end < n && v[end] != '?' && v[end] != '#'
        invariant
            n == v@.len(),
            end <= n,
            path_end(v@, 0) == path_end(v@, end as int),
        decreases n - end,
    {
        end += 1;
    }
    let path_text = string_of(&v, 0, end);
    let path = chars_of(path_text.as_str());
    assert(path@ =~= src@.take(path_end(src@, 0)));
    if matches_at(&path, &chars_of("http://"), 0) || matches_at(&path, &chars_of("https://"), 0)
        || matches_at(&path, &chars_of("data:"), 0) {
        return None;
    }
    if matches_at(&path, &chars_of("./"), 0) {
        proof {
            reveal_strlit("./");
        }
        return Some(string_of(&path, 2, path.len()));
    }
    Some(path_text)
}

/// The path of the image file that an `img` tag shows, relative to the page.
pub fn image_source(tag: &str) -> (r: Option<String>)
    ensures
        opt_text(r) == image_path(tag@),
{
    match attr_value(tag, "src") {
        Some(src) => image_src_path(src.as_str()),
        None => None,
    }
}

/// The tag with the width and height at which its image keeps its aspect ratio.
/// `natural` is the natural width and height of the image, where they are known;
/// the tag stays as it is where they are not, and where it shows no image of the
/// page.
pub fn rewrite_img_tag_dimensions(tag: &str, natural: Option<(u32, u32)>) -> (r: String)
    ensures
        r@ == rewritten_tag(tag@, natural),
{
    let source = image_source(tag);
    match (source, natural) {
        (Some(_), Some((natural_width, natural_height))) => {
            let width: u32 = match attr_u32(tag, "width") {
                Some(width) => width,
                None => natural_width,
            };
            let height: u32 = display_height(width, natural_width, natural_height);
            let with_width = set_attr_value(tag, "width", decimal_string(width as u64).as_str());
            set_attr_value(with_width.as_str(), "height", decimal_string(height as u64).as_str())
        },
        _ => tag.to_string(),
    }
}

/// Where the first `img` tag at or after position `from` begins and where its `>` stands.
fn find_tag(html: &Vec<char>, open: &Vec<char>, from: usize) -> (r: Option<(usize, usize)>)
    requires
        from <= html@.len(),
        open@ == "<img"@,
    ensures
        match first_tag(html@.skip(from as int)) {
            Some((start, end)) => r matches Some((s, e)) && s == from + start && e == from + end,
            None => r is None,
        },
        r matches Some((start, end)) ==> from <= start <= end < html.len(),
{
    proof {
        lemma_first_tag(html@.skip(from as int));
        lemma_find_skip(html@, open@, from as int, 0);
        lemma_find(html@.skip(from as int), open@, 0);
    }
    match find_from(html, open, from) {
        None => None,
        Some(start) => {
            proof {
                lemma_find_char_skip(html@, '>', from as int, start - from);
            }
            match find_char_from(html, '>', start) {
                Some(end) => Some((start, end)),
                None => None,
            }
        },
    }
}

/// For each `img` tag of the page, in order, the path of the image file that it
/// shows, relative to the page.
pub fn image_sources(html: &str) -> (r: Vec<Option<String>>)
    ensures
        r@.map_values(|s: Option<String>| opt_text(s)) == image_paths(html@),
{
    let v = chars_of(html);
    let open = chars_of("<img");
    let ghost text = |s: Option<String>| opt_text(s);
    let ghost path = |tag: Seq<char>| image_path(tag);
    let mut out: Vec<Option<String>> = Vec::new();
    let mut from: usize = 0;
    assert(v@.skip(0) =~= v@);
    assert(out@.map_values(text) + img_tags(v@).map_values(path) =~= img_tags(v@).map_values(path));
    loop
        invariant
            from <= v@.len(),
            open@ == "<img"@,
            v@ == html@,
            text == (|s: Option<String>| opt_text(s)),
            path == (|tag: Seq<char>| image_path(tag)),
            img_tags(html@).map_values(path) == out@.map_values(text) + img_tags(
                v@.skip(from as int),
            ).map_values(path),
        ensures
            first_tag(v@.skip(from as int)) is None,
        decreases v@.len() - from,
    {
        let ghost rest = v@.skip(from as int);
        let (start, end) = match find_tag(&v, &open, from) {
            Some(tag) => tag,
            None => {
                break;
            },
        };
        proof {
            lemma_first_tag(rest);
        }
        let tag = string_of(&v, start, end + 1);
        assert(tag@ =~= rest.subrange(start - from, end - from + 1));
        let ghost before = out@;
        let source = image_source(tag.as_str());
        out.push(source);
        proof {
            let next = v@.skip(end + 1);
            assert(rest.skip(end - from + 1) =~= next);
            assert(img_tags(rest) == seq![tag@] + img_tags(next));
            assert(img_tags(rest).map_values(path) =~= seq![image_path(tag@)] + img_tags(
                next,
            ).map_values(path));
            assert(out@.map_values(text) =~= before.map_values(text) + seq![image_path(tag@)]);
            assert(before.map_values(text) + img_tags(rest).map_values(path) =~= out@.map_values(
                text,
            ) + img_tags(next).map_values(path));
        }
        from = end + 1;
    }
    assert(img_tags(v@.skip(from as int)) =~= seq![]);
    assert(img_tags(html@).map_values(path) =~= out@.map_values(text));
    out
}

/// The page with the tag of each image set to the width and height at which the
/// image keeps its aspect ratio. `natural` gives, for each `img` tag in order,
/// the natural width and height of its image where they are known.
pub fn rewrite_img_dimensions(html: &str, natural: &Vec<Option<(u32, u32)>>) -> (r: String)
    requires
        natural@.len() == img_tags(html@).len(),
    ensures
        r@ == rewritten_html(html@, natural@),
{
    let v = chars_of(html);
    let open = chars_of("<img");
    let mut out = String::new();
    let mut from: usize = 0;
    let mut k: usize = 0;
    assert(v@.skip(0) =~= v@);
    assert(natural@.skip(0) =~= natural@);
    loop
        invariant
            from <= v@.len(),
            k <= natural.len(),
            open@ == "<img"@,
            v@ == html@,
            natural@.len() - k == img_tags(v@.skip(from as int)).len(),
            rewritten_html(html@, natural@) == out@ + rewritten_html(
                v@.skip(from as int),
                natural@.skip(k as int),
            ),
        ensures
            first_tag(v@.skip(from as int)) is None,
        decreases v@.len() - from,
    {
        let ghost rest = v@.skip(from as int);
        let (start, end) = match find_tag(&v, &open, from) {
            Some(tag) => tag,
            None => {
                break;
            },
        };
        proof {
            lemma_first_step(rest, natural@.skip(k as int));
        }
        let tag = string_of(&v, start, end + 1);
        assert(tag@ =~= rest.subrange(start - from, end - from + 1));
        let ghost before = out@;
        push_range(&mut out, &v, from, start);
        let rewritten = rewrite_img_tag_dimensions(tag.as_str(), natural[k]);
        push_text(&mut out, rewritten.as_str());
        proof {
            let next = v@.skip(end + 1);
            let after = rewritten_html(next, natural@.skip(k + 1));
            assert(rest.skip(end - from + 1) =~= next);
            assert(rest.take(start - from) =~= v@.subrange(from as int, start as int));
            assert(natural@.skip(k as int).skip(1) =~= natural@.skip(k + 1));
            assert(before + (rest.take(start - from) + rewritten@ + after) =~= out@ + after);
        }
        from = end + 1;
        k += 1;
    }
    push_range(&mut out, &v, from, v.len());
    assert(v@.skip(from as int) =~= v@.subrange(from as int, v@.len() as int));
    out
}

} // verus!
