use convert_tex::css::append_responsive_image_css;
use convert_tex::html::{
    image_source, image_sources, image_src_path, rewrite_img_dimensions,
    rewrite_img_tag_dimensions,
};

fn some(text: &str) -> Option<String> {
    Some(text.to_string())
}

#[test]
fn names_the_image_file() {
    assert_eq!(image_src_path("fig/a.png"), some("fig/a.png"));
    assert_eq!(image_src_path("./a.png"), some("a.png"));
    assert_eq!(image_src_path("././a.png"), some("./a.png"));
    assert_eq!(image_src_path(""), some(""));
    assert_eq!(image_src_path("/abs/a.png"), some("/abs/a.png"));
}

#[test]
fn query_and_fragment_do_not_matter() {
    assert_eq!(image_src_path("a.png?v=1#x"), some("a.png"));
    assert_eq!(image_src_path("a.png#x?y"), some("a.png"));
    assert_eq!(image_src_path("?"), some(""));
    assert_eq!(image_src_path("a.png?x"), image_src_path("a.png?x#y?z"));
}

#[test]
fn images_elsewhere_have_no_file() {
    assert_eq!(image_src_path("http://x/a.png"), None);
    assert_eq!(image_src_path("https://x/a.png"), None);
    assert_eq!(image_src_path("data:image/png;base64,AAAA"), None);
    assert_eq!(image_src_path("HTTP://x/a.png"), some("HTTP://x/a.png"));
    assert_eq!(image_src_path("./http://x"), some("http://x"));
}

#[test]
fn source_of_a_tag() {
    assert_eq!(image_source("<img src='./a.png'>"), some("a.png"));
    assert_eq!(image_source("<img alt='x'>"), None);
}

#[test]
fn sizes_a_tag_at_its_natural_width() {
    assert_eq!(
        rewrite_img_tag_dimensions("<img src='a.png'>", Some((200, 100))),
        "<img src='a.png' width='200' height='100'>"
    );
}

#[test]
fn sizes_a_tag_at_its_own_width() {
    assert_eq!(
        rewrite_img_tag_dimensions("<img src='a.png' width='50' height='9'>", Some((200, 101))),
        "<img src='a.png' width='50' height='25'>"
    );
    assert_eq!(
        rewrite_img_tag_dimensions("<img src='a.png' width='50%' height='9'>", Some((200, 101))),
        "<img src='a.png' width='200' height='101'>"
    );
}

#[test]
fn leaves_tags_without_image_or_size() {
    let tag = "<img src='a.png' width='50'>";
    assert_eq!(rewrite_img_tag_dimensions(tag, None), tag);
    assert_eq!(rewrite_img_tag_dimensions("<img alt='x'>", Some((2, 3))), "<img alt='x'>");
    let remote = "<img src='http://x/a.png'>";
    assert_eq!(rewrite_img_tag_dimensions(remote, Some((2, 3))), remote);
}

#[test]
fn finds_the_images_of_a_page() {
    let html = "<p><img src='a.png'>x<img alt=''><image src='c.svg'></p><img src='d.png'";
    assert_eq!(image_sources(html), vec![some("a.png"), None]);
    assert_eq!(image_sources("<imgx src='c.svg'>"), vec![some("c.svg")]);
    assert_eq!(image_sources(""), Vec::<Option<String>>::new());
}

#[test]
fn rewrites_the_images_of_a_page() {
    let html = "<p>ä<img src='a.png'>x > y<img src=\"b.png\" width='10'>z";
    let new = rewrite_img_dimensions(html, &vec![Some((4, 3)), Some((100, 50))]);
    assert_eq!(
        new,
        "<p>ä<img src='a.png' width='4' height='3'>x > y<img src=\"b.png\" width='10' height='5'>z"
    );
}

#[test]
fn keeps_a_tag_that_is_not_closed() {
    let html = "text <img src='a.png'";
    assert_eq!(rewrite_img_dimensions(html, &vec![]), html);
    let html = "a<img src='a.png'>b<img src='b.png'";
    assert_eq!(
        rewrite_img_dimensions(html, &vec![Some((1, 1))]),
        "a<img src='a.png' width='1' height='1'>b<img src='b.png'"
    );
}

#[test]
fn only_tags_change() {
    let html = "a<img src='1.png'>b<img src='2.png'>c";
    assert_eq!(rewrite_img_dimensions(html, &vec![None, None]), html);
    let new = rewrite_img_dimensions(html, &vec![None, Some((8, 6))]);
    assert_eq!(new, "a<img src='1.png'>b<img src='2.png' width='8' height='6'>c");
    assert_eq!(image_sources(&new), image_sources(html));
}

#[test]
fn rewriting_twice_is_rewriting_once() {
    let html = "<img width='30' src='1.png'><img src='2.png' height=\"7\"><img src='3' width=5>";
    let natural = vec![Some((90, 45)), Some((10, 4)), Some((3, 9))];
    let once = rewrite_img_dimensions(html, &natural);
    assert_eq!(
        once,
        "<img width='30' src='1.png' height='15'><img src='2.png' height=\"4\" width='10'><img src='3' width=5 height='9'>"
    );
    assert_eq!(rewrite_img_dimensions(&once, &natural), once);
}

#[test]
fn rewriting_keeps_the_images() {
    let html = "<img height='1' src='./a.png'><img src=\"b.png?width='5'\"><img width='3' src='c'>";
    let new = rewrite_img_dimensions(html, &vec![Some((2, 2)), Some((40, 20)), Some((9, 3))]);
    assert_eq!(
        new,
        "<img height='2' src='./a.png' width='2'><img src=\"b.png?width='5'\" height='3'><img width='3' src='c' height='1'>"
    );
    assert_eq!(image_sources(&new), image_sources(html));
    let html = "<img src=\"b.png?width='x'\">";
    let new = rewrite_img_dimensions(html, &vec![Some((40, 20))]);
    assert_eq!(new, "<img src=\"b.png?width='40'\" height='20'>");
    assert_eq!(image_sources(&new), vec![some("b.png")]);
}

#[test]
fn appends_the_image_rule_once() {
    let new = append_responsive_image_css("p { color: red; }");
    assert_eq!(
        new,
        some("p { color: red; }\nimg:not(.math) { max-width: 95%; height: auto; }\n")
    );
    assert_eq!(append_responsive_image_css(&new.unwrap()), None);
    assert_eq!(
        append_responsive_image_css(""),
        some("\nimg:not(.math) { max-width: 95%; height: auto; }\n")
    );
}
