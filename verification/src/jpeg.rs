//! The dimensions in the frame header of a JPEG file.

use vstd::prelude::*;

verus! {

/// What a walk over the segments of a JPEG file comes to.
#[derive(Clone, Copy, Debug, PartialEq, Eq)]
pub enum JpegScan {
    /// The first frame header gives these dimensions.
    Frame { width: u32, height: u32 },
    /// No frame header was reached.
    NoFrame,
    /// A frame header was reached whose dimensions lie behind the end of the file.
    Truncated,
}

/// A segment: its marker, and where its length field stands.
pub struct Segment {
    pub marker: u8,
    pub start: int,
}

/// The number that two bytes hold, the more significant byte first.
pub open spec fn be16(hi: u8, lo: u8) -> u32 {
    (hi * 256 + lo) as u32
}

/// The markers of the frame headers: `C0` to `CF` without `C4`, `C8` and `CC`.
pub open spec fn is_frame_marker(marker: u8) -> bool {
    0xc0 <= marker <= 0xcf && marker != 0xc4 && marker != 0xc8 && marker != 0xcc
}

/// The markers at which the walk ends: the end of the image, and the start of its scan data.
pub open spec fn is_end_marker(marker: u8) -> bool {
    marker == 0xd9 || marker == 0xda
}

/// The first position at or after `i` that does not hold a fill byte `FF`.
pub open spec fn after_fill(bytes: Seq<u8>, i: int) -> int
    decreases bytes.len() - i,
{
    if i < bytes.len() && bytes[i] == 0xff {
        after_fill(bytes, i + 1)
    } else {
        i
    }
}

/// The length that the length field at `start` gives; the field counts itself.
pub open spec fn segment_len(bytes: Seq<u8>, start: int) -> int {
    be16(bytes[start], bytes[start + 1]) as int
}

/// The segment whose marker follows the fill bytes at `i`, if it is one to
/// look at: not an end marker, and complete in the file.
pub open spec fn segment_at(bytes: Seq<u8>, i: int) -> Option<Segment> {
    let m = after_fill(bytes, i);
    if m + 3 <= bytes.len() && !is_end_marker(bytes[m]) && 2 <= segment_len(bytes, m + 1)
        <= bytes.len() - (m + 1) {
        Some(Segment { marker: bytes[m], start: m + 1 })
    } else {
        None
    }
}

/// The dimensions in the frame header whose length field stands at `start`.
pub open spec fn frame_at(bytes: Seq<u8>, start: int) -> JpegScan {
    if start + 6 < bytes.len() {
        JpegScan::Frame {
            width: be16(bytes[start + 5], bytes[start + 6]),
            height: be16(bytes[start + 3], bytes[start + 4]),
        }
    } else {
        JpegScan::Truncated
    }
}

/// The walk from position `i` on: bytes between segments are passed over,
/// segments other than frame headers are skipped by their length. It ends where
/// fewer than ten bytes are left.
pub open spec fn scan_from(bytes: Seq<u8>, i: int) -> JpegScan
    decreases bytes.len() - i,
{
    if i + 9 >= bytes.len() {
        JpegScan::NoFrame
    } else if bytes[i] != 0xff {
        scan_from(bytes, i + 1)
    } else {
        match segment_at(bytes, i) {
            None => JpegScan::NoFrame,
            Some(segment) => if is_frame_marker(segment.marker) {
                frame_at(bytes, segment.start)
            } else {
                proof {
                    lemma_after_fill(bytes, i);
                }
                scan_from(bytes, segment.start + segment_len(bytes, segment.start))
            },
        }
    }
}

/// The walk over a whole file, which must begin with the start marker `FF D8`.
pub open spec fn jpeg_scan(bytes: Seq<u8>) -> JpegScan {
    if bytes.len() < 4 || bytes[0] != 0xff || bytes[1] != 0xd8 {
        JpegScan::NoFrame
    } else {
        scan_from(bytes, 2)
    }
}

/// The dimensions that a completed walk gives.
pub open spec fn scan_dimensions(scan: JpegScan) -> Option<(u32, u32)> {
    match scan {
        JpegScan::Frame { width, height } => Some((width, height)),
        _ => None,
    }
}

/// The fill bytes end at or behind where they begin, and inside the file or at its end.
pub proof fn lemma_after_fill(bytes: Seq<u8>, i: int)
    requires
        i <= bytes.len(),
    ensures
        i <= after_fill(bytes, i) <= bytes.len(),
    decreases bytes.len() - i,
{
    if i < bytes.len() && bytes[i] == 0xff {
        lemma_after_fill(bytes, i + 1);
    }
}

/// The bytes of a segment: its marker, its length, its payload.
pub open spec fn encode_segment(marker: u8, payload: Seq<u8>) -> Seq<u8> {
    let len = payload.len() + 2;
    seq![0xffu8, marker, (len / 256) as u8, (len % 256) as u8] + payload
}

/// The bytes of several segments in turn.
pub open spec fn encode_segments(segments: Seq<(u8, Seq<u8>)>) -> Seq<u8>
    decreases segments.len(),
{
    if segments.len() == 0 {
        seq![]
    } else {
        encode_segment(segments[0].0, segments[0].1) + encode_segments(segments.drop_first())
    }
}

/// A segment that the walk skips, and whose length fits its length field.
pub open spec fn is_skipped(segment: (u8, Seq<u8>)) -> bool {
    &&& segment.0 != 0xff
    &&& !is_end_marker(segment.0)
    &&& !is_frame_marker(segment.0)
    &&& segment.1.len() + 2 <= 0xffff
}

/// The payload of a frame header: sample precision, height, width, components.
pub open spec fn frame_payload(
    precision: u8,
    width: u16,
    height: u16,
    components: Seq<u8>,
) -> Seq<u8> {
    seq![
        precision,
        (height / 256) as u8,
        (height % 256) as u8,
        (width / 256) as u8,
        (width % 256) as u8,
    ] + components
}

/// The walk passes from the start of skipped segments to what follows them.
proof fn lemma_scan_segments(bytes: Seq<u8>, i: int, segments: Seq<(u8, Seq<u8>)>, tail: Seq<u8>)
    requires
        0 <= i <= bytes.len(),
        bytes.skip(i) == encode_segments(segments) + tail,
        tail.len() >= 10,
        forall|k: int| 0 <= k < segments.len() ==> is_skipped(#[trigger] segments[k]),
    ensures
        scan_from(bytes, i) == scan_from(bytes, i + encode_segments(segments).len()),
    decreases segments.len(),
{
    if segments.len() > 0 {
        let (marker, payload) = segments[0];
        let rest = segments.drop_first();
        let here = encode_segment(marker, payload);
        let len = payload.len() + 2;
        let next = i + here.len();
        assert(is_skipped(segments[0]));
        let b = bytes.skip(i);
        assert(b =~= here + (encode_segments(rest) + tail));
        assert(bytes[i] == b[0] && bytes[i + 1] == b[1] && bytes[i + 2] == b[2] && bytes[i + 3]
            == b[3]);
        reveal_with_fuel(after_fill, 3);
        assert(after_fill(bytes, i) == i + 1);
        assert(segment_len(bytes, i + 2) == len);
        assert(scan_from(bytes, i) == scan_from(bytes, next));
        assert(bytes.skip(next) =~= encode_segments(rest) + tail) by {
            assert(bytes.skip(next) =~= b.skip(here.len() as int));
        }
        assert forall|k: int| 0 <= k < rest.len() implies is_skipped(#[trigger] rest[k]) by {
            assert(rest[k] == segments[k + 1]);
        }
        lemma_scan_segments(bytes, next, rest, tail);
    }
}

/// A file that consists of the start marker, any segments that are no frame
/// headers, and a frame header gives back the dimensions in that header,
/// whatever follows it.
pub proof fn law_frame_header_is_read_back(
    segments: Seq<(u8, Seq<u8>)>,
    marker: u8,
    precision: u8,
    width: u16,
    height: u16,
    components: Seq<u8>,
    rest: Seq<u8>,
)
    requires
        forall|k: int| 0 <= k < segments.len() ==> is_skipped(#[trigger] segments[k]),
        is_frame_marker(marker),
        1 <= components.len() <= 0xffff - 7,
    ensures
        jpeg_scan(
            seq![0xffu8, 0xd8u8] + encode_segments(segments) + encode_segment(
                marker,
                frame_payload(precision, width, height, components),
            ) + rest,
        ) == (JpegScan::Frame { width: width as u32, height: height as u32 }),
{
    let payload = frame_payload(precision, width, height, components);
    let frame = encode_segment(marker, payload);
    let tail = frame + rest;
    let body = encode_segments(segments);
    let bytes = seq![0xffu8, 0xd8u8] + body + frame + rest;
    assert(bytes.skip(2) =~= body + tail);
    lemma_scan_segments(bytes, 2, segments, tail);
    let i = 2 + body.len() as int;
    assert(bytes.skip(i) =~= tail);
    assert forall|k: int| 0 <= k < 9 implies #[trigger] bytes[i + k] == frame[k] by {
        assert(bytes.skip(i)[k] == tail[k]);
    }
    assert(bytes[i + 0] == 0xff && bytes[i + 1] == marker);
    assert(bytes[i + 2] == frame[2] && bytes[i + 3] == frame[3]);
    reveal_with_fuel(after_fill, 3);
    assert(after_fill(bytes, i) == i + 1);
    assert(segment_len(bytes, i + 2) == payload.len() + 2);
    assert(frame[5] == payload[1] && frame[6] == payload[2] && frame[7] == payload[3] && frame[8]
        == payload[4]);
    assert(bytes[i + 5] == frame[5] && bytes[i + 6] == frame[6] && bytes[i + 7] == frame[7]
        && bytes[i + 8] == frame[8]);
}

/// Fill bytes that end inside a file end there in a longer file too.
proof fn lemma_after_fill_appended(bytes: Seq<u8>, rest: Seq<u8>, i: int)
    requires
        0 <= i <= bytes.len(),
        after_fill(bytes, i) < bytes.len(),
    ensures
        after_fill(bytes + rest, i) == after_fill(bytes, i),
    decreases bytes.len() - i,
{
    assert((bytes + rest)[i] == bytes[i]);
    if bytes[i] == 0xff {
        lemma_after_fill_appended(bytes, rest, i + 1);
    }
}

/// A walk that reaches a frame reaches it in a longer file too.
proof fn lemma_scan_appended(bytes: Seq<u8>, rest: Seq<u8>, i: int)
    requires
        0 <= i,
        scan_from(bytes, i) is Frame,
    ensures
        scan_from(bytes + rest, i) == scan_from(bytes, i),
    decreases bytes.len() - i,
{
    let longer = bytes + rest;
    assert forall|k: int| 0 <= k < bytes.len() implies #[trigger] longer[k] == bytes[k] by {}
    if bytes[i] != 0xff {
        lemma_scan_appended(bytes, rest, i + 1);
    } else {
        let m = after_fill(bytes, i);
        lemma_after_fill(bytes, i);
        lemma_after_fill_appended(bytes, rest, i);
        assert(segment_len(longer, m + 1) == segment_len(bytes, m + 1));
        assert(segment_at(longer, i) == segment_at(bytes, i));
        if !is_frame_marker(bytes[m]) {
            lemma_scan_appended(bytes, rest, m + 1 + segment_len(bytes, m + 1));
        }
    }
}

/// Bytes that are appended to a file in which a frame was found do not change
/// the dimensions.
pub proof fn law_appended_bytes_do_not_matter(bytes: Seq<u8>, rest: Seq<u8>)
    requires
        jpeg_scan(bytes) is Frame,
    ensures
        jpeg_scan(bytes + rest) == jpeg_scan(bytes),
{
    lemma_scan_appended(bytes, rest, 2);
}

fn read_be16(hi: u8, lo: u8) -> (r: u32)
    ensures
        r == be16(hi, lo),
{
    (hi as u32) * 256 + lo as u32
}

fn skip_fill(bytes: &[u8], from: usize) -> (r: usize)
    requires
        from <= bytes@.len(),
    ensures
        r == after_fill(bytes@, from as int),
        from <= r <= bytes@.len(),
{
    let mut i: usize = from;
    while i < bytes.len() && bytes[i] == 0xff
        invariant
            from <= i <= bytes@.len(),
            after_fill(bytes@, from as int) == after_fill(bytes@, i as int),
        decreases bytes@.len() - i,
    {
        i += 1;
    }
    i
}

/// Walks over the segments of a JPEG file up to its first frame header.
pub fn scan_jpeg(bytes: &[u8]) -> (r: JpegScan)
    ensures
        r == jpeg_scan(bytes@),
{
    let n: usize = bytes.len();
    if n < 4 || bytes[0] != 0xff || bytes[1] != 0xd8 {
        return JpegScan::NoFrame;
    }
    let mut i: usize = 2;
    while i < n && n - i > 9
        invariant
            n == bytes@.len(),
            i <= n,
            jpeg_scan(bytes@) == scan_from(bytes@, i as int),
        decreases n - i,
    {
        if bytes[i] != 0xff {
            i += 1;
            continue;
        }
        let m: usize = skip_fill(bytes, i);
        if n - m < 3 {
            return JpegScan::NoFrame;
        }
        let marker: u8 = bytes[m];
        if marker == 0xd9 || marker == 0xda {
            return JpegScan::NoFrame;
        }
        let start: usize = m + 1;
        let len: usize = read_be16(bytes[start], bytes[start + 1]) as usize;
        if len < 2 || len > n - start {
            return JpegScan::NoFrame;
        }
        if 0xc0 <= marker && marker <= 0xcf && marker != 0xc4 && marker != 0xc8 && marker != 0xcc {
            if n - start <= 6 {
                return JpegScan::Truncated;
            }
            return JpegScan::Frame {
                width: read_be16(bytes[start + 5], bytes[start + 6]),
                height: read_be16(bytes[start + 3], bytes[start + 4]),
            };
        }
        i = start + len;
    }
    JpegScan::NoFrame
}

/// The width and height of the JPEG file with the content `bytes`, if it has a
/// frame header. A file that ends inside its frame header is not accepted.
pub fn jpeg_dimensions(bytes: &[u8]) -> (r: Option<(u32, u32)>)
    requires
        jpeg_scan(bytes@) !is Truncated,
    ensures
        r == scan_dimensions(jpeg_scan(bytes@)),
{
    match scan_jpeg(bytes) {
        JpegScan::Frame { width, height } => Some((width, height)),
        _ => None,
    }
}

} // verus!
