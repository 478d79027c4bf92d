//! The formats of image files, told by the extension of the file name.

use vstd::prelude::*;

use crate::listing::{
    extension_of, file_extension, law_extension_of_a_name, law_name_without_extension,
};
use crate::text::{chars_of, last_char, lemma_last_char, lemma_last_char_last, same_chars};

verus! {

/// An image format whose dimensions can be read.
#[derive(Clone, Copy, Debug, PartialEq, Eq)]
pub enum ImageFormat {
    Png,
    Jpeg,
    Svg,
}

/// A character with the letters `A` to `Z` in lower case.
pub open spec fn ascii_lower(c: char) -> char {
    if 'A' <= c <= 'Z' {
        (c as u32 + 32) as char
    } else {
        c
    }
}

/// A text with the letters `A` to `Z` in lower case.
pub open spec fn lower_case(s: Seq<char>) -> Seq<char> {
    s.map_values(|c: char| ascii_lower(c))
}

/// The format of an image file of the given name.
pub open spec fn format_of(name: Seq<char>) -> Option<ImageFormat> {
    match extension_of(name) {
        None => None,
        Some(ext) => {
            let ext = lower_case(ext);
            if ext == "png"@ {
                Some(ImageFormat::Png)
            } else if ext == "jpg"@ || ext == "jpeg"@ {
                Some(ImageFormat::Jpeg)
            } else if ext == "svg"@ {
                Some(ImageFormat::Svg)
            } else {
                None
            }
        },
    }
}

/// A file name in other letter case has the same format.
pub proof fn law_letter_case_does_not_matter(name: Seq<char>, other: Seq<char>)
    requires
        lower_case(name) == lower_case(other),
    ensures
        format_of(name) == format_of(other),
{
    assert(lower_case(name).len() == name.len() && lower_case(other).len() == other.len());
    assert forall|i: int| 0 <= i < name.len() implies ascii_lower(#[trigger] name[i])
        == ascii_lower(other[i]) by {
        assert(lower_case(name)[i] == ascii_lower(name[i]));
        assert(lower_case(other)[i] == ascii_lower(other[i]));
    }
    lemma_last_char(name, '.');
    lemma_last_char(other, '.');
    assert forall|i: int|
        #![trigger name[i]]
        #![trigger other[i]]
        0 <= i < name.len() implies (name[i] == '.') == (other[i] == '.') by {
        assert(ascii_lower(name[i]) == ascii_lower(other[i]));
    }
    let points = seq!['.', '.'];
    assert((name == points) == (other == points)) by {
        if name == points {
            assert(name[0] == '.' && name[1] == '.');
            assert(other =~= points);
        }
        if other == points {
            assert(other[0] == '.' && other[1] == '.');
            assert(name[0] == '.' && name[1] == '.');
            assert(name =~= points);
        }
    }
    if let Some(point) = last_char(name, '.') {
        lemma_last_char_last(other, '.', point);
        let a = name.skip(point + 1);
        let b = other.skip(point + 1);
        assert(lower_case(a) =~= lower_case(b)) by {
            assert forall|i: int| 0 <= i < a.len() implies #[trigger] lower_case(a)[i]
                == lower_case(b)[i] by {
                assert(ascii_lower(name[point + 1 + i]) == ascii_lower(other[point + 1 + i]));
            }
        }
    }
}

/// The letter of a text in lower case is known from the letter itself.
proof fn lemma_lower_letter(c: char)
    ensures
        ascii_lower(c) == 'p' <==> c == 'p' || c == 'P',
        ascii_lower(c) == 'n' <==> c == 'n' || c == 'N',
        ascii_lower(c) == 'g' <==> c == 'g' || c == 'G',
        ascii_lower(c) == 'j' <==> c == 'j' || c == 'J',
        ascii_lower(c) == 'e' <==> c == 'e' || c == 'E',
        ascii_lower(c) == 's' <==> c == 's' || c == 'S',
        ascii_lower(c) == 'v' <==> c == 'v' || c == 'V',
{
}

/// A file `stem.ext` is a PNG file where `ext` is `png`, a JPEG file where it is
/// `jpg` or `jpeg`, and an SVG file where it is `svg`, each letter small or
/// capital; any other file is none of these.
pub proof fn law_format_by_extension(stem: Seq<char>, ext: Seq<char>)
    requires
        stem.len() > 0,
        !ext.contains('.'),
    ensures
        format_of(stem.push('.') + ext) == if ext.len() == 3 && (ext[0] == 'p' || ext[0] == 'P')
            && (ext[1] == 'n' || ext[1] == 'N') && (ext[2] == 'g' || ext[2] == 'G') {
            Some(ImageFormat::Png)
        } else if ext.len() == 3 && (ext[0] == 'j' || ext[0] == 'J') && (ext[1] == 'p' || ext[1]
            == 'P') && (ext[2] == 'g' || ext[2] == 'G') {
            Some(ImageFormat::Jpeg)
        } else if ext.len() == 4 && (ext[0] == 'j' || ext[0] == 'J') && (ext[1] == 'p' || ext[1]
            == 'P') && (ext[2] == 'e' || ext[2] == 'E') && (ext[3] == 'g' || ext[3] == 'G') {
            Some(ImageFormat::Jpeg)
        } else if ext.len() == 3 && (ext[0] == 's' || ext[0] == 'S') && (ext[1] == 'v' || ext[1]
            == 'V') && (ext[2] == 'g' || ext[2] == 'G') {
            Some(ImageFormat::Svg)
        } else {
            None
        },
{
    reveal_strlit("png");
    reveal_strlit("jpg");
    reveal_strlit("jpeg");
    reveal_strlit("svg");
    let name = stem.push('.') + ext;
    law_extension_of_a_name(stem, ext);
    let lower = lower_case(ext);
    assert(lower.len() == ext.len());
    if name == seq!['.', '.'] {
        assert(name.len() == 2);
    } else if ext.len() == 3 {
        lemma_lower_letter(ext[0]);
        lemma_lower_letter(ext[1]);
        lemma_lower_letter(ext[2]);
        assert(lower =~= seq![ascii_lower(ext[0]), ascii_lower(ext[1]), ascii_lower(ext[2])]);
        assert("png"@ =~= seq!['p', 'n', 'g']);
        assert("jpg"@ =~= seq!['j', 'p', 'g']);
        assert("svg"@ =~= seq!['s', 'v', 'g']);
        assert(lower == "png"@ <==> lower[0] == 'p' && lower[1] == 'n' && lower[2] == 'g') by {
            if lower[0] == 'p' && lower[1] == 'n' && lower[2] == 'g' {
                assert(lower =~= "png"@);
            }
        }
        assert(lower == "jpg"@ <==> lower[0] == 'j' && lower[1] == 'p' && lower[2] == 'g') by {
            if lower[0] == 'j' && lower[1] == 'p' && lower[2] == 'g' {
                assert(lower =~= "jpg"@);
            }
        }
        assert(lower == "svg"@ <==> lower[0] == 's' && lower[1] == 'v' && lower[2] == 'g') by {
            if lower[0] == 's' && lower[1] == 'v' && lower[2] == 'g' {
                assert(lower =~= "svg"@);
            }
        }
    } else if ext.len() == 4 {
        lemma_lower_letter(ext[0]);
        lemma_lower_letter(ext[1]);
        lemma_lower_letter(ext[2]);
        lemma_lower_letter(ext[3]);
        assert("jpeg"@ =~= seq!['j', 'p', 'e', 'g']);
        assert(lower == "jpeg"@ <==> lower[0] == 'j' && lower[1] == 'p' && lower[2] == 'e'
            && lower[3] == 'g') by {
            if lower[0] == 'j' && lower[1] == 'p' && lower[2] == 'e' && lower[3] == 'g' {
                assert(lower =~= "jpeg"@);
            }
        }
    }
}

/// A file without an extension is none of these.
pub proof fn law_no_extension_no_format(name: Seq<char>)
    requires
        !name.contains('.'),
    ensures
        format_of(name) is None,
        format_of(seq!['.'] + name) is None,
{
    law_name_without_extension(name);
}

fn lower_char(c: char) -> (r: char)
    ensures
        r == ascii_lower(c),
{
    if 'A' <= c && c <= 'Z' {
        (c as u8 + 32) as char
    } else {
        c
    }
}

/// The format of the image file with the name `name`, whatever the letter case
/// of its extension.
pub fn image_format(name: &str) -> (r: Option<ImageFormat>)
    ensures
        r == format_of(name@),
{
    let ext = match file_extension(name) {
        Some(ext) => ext,
        None => {
            return None;
        },
    };
    let v = chars_of(ext.as_str());
    let mut lower: Vec<char> = Vec::new();
    let mut i: usize = 0;
    while i < v.len()
        invariant
            i <= v@.len(),
            lower@ == lower_case(v@.take(i as int)),
        decreases v@.len() - i,
    {
        lower.push(lower_char(v[i]));
        assert(v@.take(i + 1) =~= v@.take(i as int).push(v@[i as int]));
        assert(lower@ =~= lower_case(v@.take(i + 1)));
        i += 1;
    }
    assert(v@.take(v@.len() as int) =~= v@);
    if same_chars(&lower, &chars_of("png")) {
        Some(ImageFormat::Png)
    } else if same_chars(&lower, &chars_of("jpg")) || same_chars(&lower, &chars_of("jpeg")) {
        Some(ImageFormat::Jpeg)
    } else if same_chars(&lower, &chars_of("svg")) {
        Some(ImageFormat::Svg)
    } else {
        None
    }
}

} // verus!
