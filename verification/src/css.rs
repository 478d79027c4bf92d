//! The style sheet rule that keeps images inside the page.

use vstd::prelude::*;

use crate::text::{
    chars_of, contains, find_from, lemma_find, occurs_at, push_text,
};

verus! {

/// The rule for images other than formulas.
pub const IMAGE_RULE: &'static str = "img:not(.math) { max-width: 95%; height: auto; }";

/// A style sheet with the rule appended on a line of its own.
pub open spec fn with_image_rule(css: Seq<char>) -> Seq<char> {
    css + seq!['\n'] + IMAGE_RULE@ + seq!['\n']
}

/// A style sheet to which the rule was appended holds the rule, so that it is
/// not appended a second time.
pub proof fn law_rule_is_appended_once(css: Seq<char>)
    ensures
        contains(with_image_rule(css), IMAGE_RULE@),
{
    let new = with_image_rule(css);
    let at = css.len() as int + 1;
    assert(new.subrange(at, at + IMAGE_RULE@.len()) =~= IMAGE_RULE@);
    assert(occurs_at(new, IMAGE_RULE@, at));
    lemma_find(new, IMAGE_RULE@, 0);
}

/// The rule is appended on a line of its own behind all that the style sheet holds.
pub proof fn law_rule_follows_the_style_sheet(css: Seq<char>)
    ensures
        with_image_rule(css) == css + "\nimg:not(.math) { max-width: 95%; height: auto; }\n"@,
        IMAGE_RULE@ == "img:not(.math) { max-width: 95%; height: auto; }"@,
{
    reveal_strlit("\nimg:not(.math) { max-width: 95%; height: auto; }\n");
    reveal_strlit("img:not(.math) { max-width: 95%; height: auto; }");
    assert(seq!['\n'] + IMAGE_RULE@ + seq!['\n']
        =~= "\nimg:not(.math) { max-width: 95%; height: auto; }\n"@);
    assert(with_image_rule(css) =~= css + (seq!['\n'] + IMAGE_RULE@ + seq!['\n']));
}

/// The style sheet with the rule for images appended; None where it holds the
/// rule already and stays as it is.
pub fn append_responsive_image_css(css: &str) -> (r: Option<String>)
    ensures
        match r {
            Some(new) => !contains(css@, IMAGE_RULE@) && new@ == with_image_rule(css@),
            None => contains(css@, IMAGE_RULE@),
        },
{
    if find_from(&chars_of(css), &chars_of(IMAGE_RULE), 0).is_some() {
        return None;
    }
    let mut new = String::new();
    push_text(&mut new, css);
    new.push('\n');
    push_text(&mut new, IMAGE_RULE);
    new.push('\n');
    assert(new@ =~= with_image_rule(css@));
    Some(new)
}

} // verus!
