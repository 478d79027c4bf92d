//! The dimensions in the header of a PNG file.

use vstd::prelude::*;

verus! {

/// The eight bytes that a PNG file begins with.
pub open spec fn png_signature() -> Seq<u8> {
    seq![0x89u8, 0x50u8, 0x4eu8, 0x47u8, 0x0du8, 0x0au8, 0x1au8, 0x0au8]
}

/// The number that the four bytes at `i` hold, the most significant byte first.
pub open spec fn be32(bytes: Seq<u8>, i: int) -> u32 {
    (((bytes[i] * 256 + bytes[i + 1]) * 256 + bytes[i + 2]) * 256 + bytes[i + 3]) as u32
}

/// The dimensions in a header: 24 bytes that begin with the signature, the width
/// in bytes 16 to 19 and the height in bytes 20 to 23.
pub open spec fn png_size(header: Seq<u8>) -> Option<(u32, u32)> {
    if header.len() >= 24 && header.take(8) == png_signature() {
        Some((be32(header, 16), be32(header, 20)))
    } else {
        None
    }
}

/// The four bytes of a number, the most significant byte first.
pub open spec fn encode_be32(n: u32) -> Seq<u8> {
    seq![
        (n / 0x100_0000) as u8,
        (n / 0x1_0000 % 256) as u8,
        (n / 0x100 % 256) as u8,
        (n % 256) as u8,
    ]
}

/// A header that holds a width and a height gives them back, whatever stands
/// between the signature and them, and whatever follows.
pub proof fn law_png_size_is_read_back(between: Seq<u8>, width: u32, height: u32, rest: Seq<u8>)
    requires
        between.len() == 8,
    ensures
        png_size(png_signature() + between + encode_be32(width) + encode_be32(height) + rest)
            == Some((width, height)),
{
    let header = png_signature() + between + encode_be32(width) + encode_be32(height) + rest;
    assert(header.take(8) =~= png_signature());
    assert forall|k: int| 0 <= k < 4 implies #[trigger] encode_be32(width)[k] == header[16 + k] by {}
    assert forall|k: int| 0 <= k < 4 implies #[trigger] encode_be32(height)[k] == header[20
        + k] by {}
    assert(header[16] == encode_be32(width)[0] && header[17] == encode_be32(width)[1] && header[18]
        == encode_be32(width)[2] && header[19] == encode_be32(width)[3]);
    assert(header[20] == encode_be32(height)[0] && header[21] == encode_be32(height)[1]
        && header[22] == encode_be32(height)[2] && header[23] == encode_be32(height)[3]);
}

/// What follows the 24 bytes of the header does not matter.
pub proof fn law_appended_bytes_do_not_matter(header: Seq<u8>, rest: Seq<u8>)
    requires
        header.len() >= 24,
    ensures
        png_size(header + rest) == png_size(header),
{
    assert((header + rest).take(8) =~= header.take(8));
}

/// A file gives dimensions where its first 24 bytes are there and begin with
/// `89 50 4E 47 0D 0A 1A 0A`: the numbers in the four bytes behind the sixteenth
/// and in the four behind those, the most significant byte first.
pub proof fn law_png_header_gives_the_dimensions(header: Seq<u8>)
    ensures
        png_size(header) == if header.len() >= 24 && header[0] == 0x89 && header[1] == 0x50
            && header[2] == 0x4e && header[3] == 0x47 && header[4] == 0x0d && header[5] == 0x0a
            && header[6] == 0x1a && header[7] == 0x0a {
            Some(
                (
                    (header[16] * 0x100_0000 + header[17] * 0x1_0000 + header[18] * 0x100
                        + header[19]) as u32,
                    (header[20] * 0x100_0000 + header[21] * 0x1_0000 + header[22] * 0x100
                        + header[23]) as u32,
                ),
            )
        } else {
            None
        },
{
    if header.len() >= 24 {
        let first = header.take(8);
        assert forall|k: int| 0 <= k < 8 implies #[trigger] first[k] == header[k] by {}
        assert(first[0] == header[0] && first[1] == header[1] && first[2] == header[2] && first[3]
            == header[3] && first[4] == header[4] && first[5] == header[5] && first[6] == header[6]
            && first[7] == header[7]);
        if header[0] == 0x89 && header[1] == 0x50 && header[2] == 0x4e && header[3] == 0x47
            && header[4] == 0x0d && header[5] == 0x0a && header[6] == 0x1a && header[7] == 0x0a {
            assert(first =~= png_signature());
        }
    }
}

fn read_be32(bytes: &[u8], i: usize) -> (r: u32)
    requires
        i + 3 < bytes@.len(),
        i <= 20,
    ensures
        r == be32(bytes@, i as int),
{
    (((bytes[i] as u32) * 256 + bytes[i + 1] as u32) * 256 + bytes[i + 2] as u32) * 256 + bytes[i
        + 3] as u32
}

/// The width and height in the header of a PNG file, given what could be read
/// of the file's first 24 bytes.
pub fn png_dimensions(header: &[u8]) -> (r: Option<(u32, u32)>)
    ensures
        r == png_size(header@),
{
    if header.len() < 24 {
        return None;
    }
    if header[0] != 0x89 || header[1] != 0x50 || header[2] != 0x4e || header[3] != 0x47
        || header[4] != 0x0d || header[5] != 0x0a || header[6] != 0x1a || header[7] != 0x0a {
        proof {
            let s = header@.take(8);
            assert(s[0] == header@[0] && s[1] == header@[1] && s[2] == header@[2] && s[3]
                == header@[3] && s[4] == header@[4] && s[5] == header@[5] && s[6] == header@[6]
                && s[7] == header@[7]);
        }
        return None;
    }
    assert(header@.take(8) =~= png_signature());
    Some((read_be32(header, 16), read_be32(header, 20)))
}

} // verus!
