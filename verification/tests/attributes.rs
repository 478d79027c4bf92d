use convert_tex::attribute::{attr_u32, attr_value, set_attr_value};
use convert_tex::number::{decimal_string, parse_u32};

fn value(tag: &str, name: &str) -> Option<String> {
    attr_value(tag, name)
}

#[test]
fn reads_values_in_either_quotes() {
    assert_eq!(value("<img src='a.png' alt=\"x y\">", "src"), Some("a.png".to_string()));
    assert_eq!(value("<img src='a.png' alt=\"x y\">", "alt"), Some("x y".to_string()));
    assert_eq!(value("<img alt=''>", "alt"), Some(String::new()));
}

#[test]
fn reads_nothing_without_closed_quotes() {
    assert_eq!(value("<img width=10>", "width"), None);
    assert_eq!(value("<img width='10>", "width"), None);
    assert_eq!(value("<img width=", "width"), None);
    assert_eq!(value("<img>", "width"), None);
}

#[test]
fn reads_the_first_place_of_the_name() {
    assert_eq!(value("<img data-src='b' src='a'>", "src"), Some("b".to_string()));
    assert_eq!(value("<img src=a src='b'>", "src"), None);
}

#[test]
fn reads_values_with_other_scripts() {
    assert_eq!(value("<img alt='Grüße 図' src='é.png'>", "src"), Some("é.png".to_string()));
}

#[test]
fn reads_numbers() {
    assert_eq!(attr_u32("<img width='640'>", "width"), Some(640));
    assert_eq!(attr_u32("<img width='+7'>", "width"), Some(7));
    assert_eq!(attr_u32("<img width='640px'>", "width"), None);
    assert_eq!(attr_u32("<img width=''>", "width"), None);
    assert_eq!(attr_u32("<img width='4294967295'>", "width"), Some(u32::MAX));
    assert_eq!(attr_u32("<img width='4294967296'>", "width"), None);
}

#[test]
fn numbers_are_read_as_std_reads_them() {
    for text in [
        "", "+", "-", "-0", "0", "+0", "007", "++1", "1_0", " 1", "1 ", "12a", "4294967295",
        "4294967296", "00000000000000000000004294967295", "99999999999999999999", "٣",
    ] {
        assert_eq!(parse_u32(text), text.parse::<u32>().ok(), "{:?}", text);
    }
}

#[test]
fn written_numbers_are_read_back() {
    for n in [0u32, 9, 10, 99, 100, 12345, u32::MAX] {
        assert_eq!(decimal_string(n as u64), n.to_string());
        assert_eq!(parse_u32(&decimal_string(n as u64)), Some(n));
    }
    assert_eq!(decimal_string(u64::MAX), u64::MAX.to_string());
}

#[test]
fn replaces_a_value_in_its_quotes() {
    assert_eq!(
        set_attr_value("<img width=\"10\" src='a'>", "width", "25"),
        "<img width=\"25\" src='a'>"
    );
}

#[test]
fn adds_an_attribute_in_front_of_the_last_bracket() {
    assert_eq!(set_attr_value("<img src='a'>", "width", "25"), "<img src='a' width='25'>");
    assert_eq!(set_attr_value("<img src='a'/>", "width", "25"), "<img src='a'/ width='25'>");
    assert_eq!(set_attr_value("a>b>c", "x", "1"), "a>b x='1'>c");
}

#[test]
fn leaves_what_it_cannot_set() {
    assert_eq!(set_attr_value("<img width=10>", "width", "25"), "<img width=10>");
    assert_eq!(set_attr_value("<img width='10>", "width", "25"), "<img width='10>");
    assert_eq!(set_attr_value("<img width=", "width", "25"), "<img width=");
    assert_eq!(set_attr_value("no tag", "width", "25"), "no tag");
}

#[test]
fn written_attributes_are_read_back() {
    let tag = set_attr_value("<img src='a'>", "alt", "a \"b\" = c");
    assert_eq!(value(&tag, "alt"), Some("a \"b\" = c".to_string()));
    let tag = set_attr_value("<img alt=\"x\">", "alt", "it's");
    assert_eq!(value(&tag, "alt"), Some("it's".to_string()));
}

#[test]
fn the_last_write_stays() {
    let once = set_attr_value("<img>", "width", "2");
    let twice = set_attr_value(&once, "width", "31");
    assert_eq!(twice, set_attr_value("<img>", "width", "31"));
}

#[test]
fn writing_the_value_read_changes_nothing() {
    let tag = "<img width=\"10\" height='3'>";
    assert_eq!(set_attr_value(tag, "height", "3"), tag);
}

#[test]
fn other_attributes_stay() {
    let tag = "<img height='1' width=\"10\" alt='x'>";
    let new = set_attr_value(tag, "height", "1000");
    assert_eq!(value(&new, "width"), Some("10".to_string()));
    assert_eq!(value(&new, "alt"), Some("x".to_string()));
}
