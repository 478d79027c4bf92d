//! What the walk over a JPEG file comes to, byte by byte: each law says it of one
//! way in which the file can go on behind its start marker.

use vstd::prelude::*;

use crate::jpeg::{
    after_fill, encode_segment, encode_segments, frame_payload, jpeg_scan, lemma_after_fill,
    scan_dimensions, scan_from, segment_at, segment_len, JpegScan,
};

verus! {

/// Fill bytes end at the same distance in files that go on alike.
proof fn lemma_same_fill(a: Seq<u8>, i: int, b: Seq<u8>, j: int)
    requires
        0 <= i <= a.len(),
        0 <= j <= b.len(),
        a.skip(i) == b.skip(j),
    ensures
        after_fill(a, i) - i == after_fill(b, j) - j,
    decreases a.len() - i,
{
    assert(a.len() - i == a.skip(i).len() && b.len() - j == b.skip(j).len());
    if i < a.len() {
        assert(a.skip(i)[0] == a[i] && b.skip(j)[0] == b[j]);
        assert(a.skip(i + 1) =~= a.skip(i).skip(1));
        assert(b.skip(j + 1) =~= b.skip(j).skip(1));
        if a[i] == 0xff {
            lemma_same_fill(a, i + 1, b, j + 1);
        }
    }
}

/// The walk goes on alike in files that go on alike.
proof fn lemma_same_walk(a: Seq<u8>, i: int, b: Seq<u8>, j: int)
    requires
        0 <= i <= a.len(),
        0 <= j <= b.len(),
        a.skip(i) == b.skip(j),
    ensures
        scan_from(a, i) == scan_from(b, j),
    decreases a.len() - i,
{
    let rest = a.skip(i);
    assert(rest.len() == b.skip(j).len());
    assert forall|k: int| 0 <= k < rest.len() implies #[trigger] a[i + k] == b[j + k] by {
        assert(rest[k] == a[i + k]);
        assert(b.skip(j)[k] == b[j + k]);
    }
    if i + 9 < a.len() {
        assert(a[i + 0] == b[j + 0]);
        if a[i] != 0xff {
            assert(a.skip(i + 1) =~= rest.skip(1));
            assert(b.skip(j + 1) =~= b.skip(j).skip(1));
            lemma_same_walk(a, i + 1, b, j + 1);
        } else {
            lemma_same_fill(a, i, b, j);
            lemma_after_fill(a, i);
            let m = after_fill(a, i) - i;
            if m + 3 <= rest.len() {
                assert(a[i + m] == b[j + m]);
                assert(a[i + (m + 1)] == b[j + (m + 1)]);
                assert(a[i + (m + 2)] == b[j + (m + 2)]);
                if m + 7 < rest.len() {
                    assert(a[i + (m + 4)] == b[j + (m + 4)]);
                    assert(a[i + (m + 5)] == b[j + (m + 5)]);
                    assert(a[i + (m + 6)] == b[j + (m + 6)]);
                    assert(a[i + (m + 7)] == b[j + (m + 7)]);
                }
                if let Some(segment) = segment_at(a, i) {
                    let n = m + 1 + segment_len(a, i + m + 1);
                    assert(a.skip(i + n) =~= rest.skip(n));
                    assert(b.skip(j + n) =~= b.skip(j).skip(n));
                    lemma_same_walk(a, i + n, b, j + n);
                }
            }
        }
    }
}

/// The walk over the start marker and `rest` is the walk over any file that goes
/// on with `rest`.
proof fn lemma_walk_of_rest(bytes: Seq<u8>, i: int, rest: Seq<u8>)
    requires
        2 <= i <= bytes.len(),
        bytes.skip(i) == rest,
    ensures
        scan_from(bytes, i) == jpeg_scan(seq![0xffu8, 0xd8u8] + rest),
{
    let whole = seq![0xffu8, 0xd8u8] + rest;
    assert(whole.skip(2) =~= rest);
    lemma_same_walk(bytes, i, whole, 2);
}

/// A file that does not begin with `FF D8`, or has fewer than ten bytes behind
/// it, gives no dimensions.
pub proof fn law_start_marker_is_needed(bytes: Seq<u8>)
    requires
        bytes.len() < 12 || bytes[0] != 0xff || bytes[1] != 0xd8,
    ensures
        jpeg_scan(bytes) == JpegScan::NoFrame,
{
}

/// A byte other than `FF` between segments is passed over.
pub proof fn law_stray_byte_is_passed_over(byte: u8, rest: Seq<u8>)
    requires
        byte != 0xff,
    ensures
        jpeg_scan(seq![0xffu8, 0xd8u8, byte] + rest) == jpeg_scan(seq![0xffu8, 0xd8u8] + rest),
{
    let bytes = seq![0xffu8, 0xd8u8, byte] + rest;
    assert(bytes.skip(3) =~= rest);
    lemma_walk_of_rest(bytes, 3, rest);
}

/// A further `FF` in front of a marker is passed over, where ten bytes are left
/// without it.
pub proof fn law_fill_byte_is_passed_over(rest: Seq<u8>)
    requires
        rest.len() >= 9,
    ensures
        jpeg_scan(seq![0xffu8, 0xd8u8, 0xffu8, 0xffu8] + rest) == jpeg_scan(
            seq![0xffu8, 0xd8u8, 0xffu8] + rest,
        ),
{
    let bytes = seq![0xffu8, 0xd8u8, 0xffu8, 0xffu8] + rest;
    let tail = seq![0xffu8] + rest;
    assert(bytes.skip(3) =~= tail);
    assert(seq![0xffu8, 0xd8u8] + tail =~= seq![0xffu8, 0xd8u8, 0xffu8] + rest);
    lemma_walk_of_rest(bytes, 3, tail);
    assert(after_fill(bytes, 2) == after_fill(bytes, 3));
    assert(segment_at(bytes, 2) == segment_at(bytes, 3));
    assert(scan_from(bytes, 2) == scan_from(bytes, 3));
}

/// A segment is skipped by its length, whatever it holds, unless its marker is
/// `D9` or `DA` or that of a frame header: `C0` to `C3`, `C5` to `C7`, `C9` to
/// `CB`, `CD` to `CF`.
pub proof fn law_segment_is_skipped(
    marker: u8,
    hi: u8,
    lo: u8,
    payload: Seq<u8>,
    rest: Seq<u8>,
)
    requires
        marker != 0xff,
        marker != 0xd9 && marker != 0xda,
        !(0xc0 <= marker <= 0xc3 || 0xc5 <= marker <= 0xc7 || 0xc9 <= marker <= 0xcb || 0xcd
            <= marker <= 0xcf),
        payload.len() + 2 == hi * 256 + lo,
    ensures
        jpeg_scan(seq![0xffu8, 0xd8u8, 0xffu8, marker, hi, lo] + payload + rest) == jpeg_scan(
            seq![0xffu8, 0xd8u8] + rest,
        ),
{
    let bytes = seq![0xffu8, 0xd8u8, 0xffu8, marker, hi, lo] + payload + rest;
    let next = 6 + payload.len() as int;
    assert(bytes.skip(next) =~= rest);
    lemma_walk_of_rest(bytes, next, rest);
    reveal_with_fuel(after_fill, 3);
    assert(bytes[2] == 0xff && bytes[3] == marker && bytes[4] == hi && bytes[5] == lo);
    assert(after_fill(bytes, 2) == 3);
    assert(segment_len(bytes, 4) == hi * 256 + lo);
    if bytes.len() > 11 {
        assert(scan_from(bytes, 2) == scan_from(bytes, next));
    }
}

/// The walk ends without dimensions at a marker `D9` or `DA`, whatever follows.
pub proof fn law_walk_ends_at_end_markers(marker: u8, rest: Seq<u8>)
    requires
        marker == 0xd9 || marker == 0xda,
    ensures
        jpeg_scan(seq![0xffu8, 0xd8u8, 0xffu8, marker] + rest) == JpegScan::NoFrame,
{
    let bytes = seq![0xffu8, 0xd8u8, 0xffu8, marker] + rest;
    reveal_with_fuel(after_fill, 3);
    assert(bytes[2] == 0xff && bytes[3] == marker);
    assert(after_fill(bytes, 2) == 3);
}

/// The walk ends without dimensions at a segment, of whatever marker, whose
/// length is below 2 or reaches behind the end of the file.
pub proof fn law_walk_ends_at_incomplete_segments(marker: u8, hi: u8, lo: u8, rest: Seq<u8>)
    requires
        marker != 0xff,
        hi * 256 + lo < 2 || hi * 256 + lo > rest.len() + 2,
    ensures
        jpeg_scan(seq![0xffu8, 0xd8u8, 0xffu8, marker, hi, lo] + rest) == JpegScan::NoFrame,
{
    let bytes = seq![0xffu8, 0xd8u8, 0xffu8, marker, hi, lo] + rest;
    reveal_with_fuel(after_fill, 3);
    assert(bytes[2] == 0xff && bytes[3] == marker && bytes[4] == hi && bytes[5] == lo);
    assert(after_fill(bytes, 2) == 3);
    assert(segment_len(bytes, 4) == hi * 256 + lo);
}

/// A frame header gives the dimensions: behind its length and one byte the height
/// and then the width, each in two bytes with the more significant one first.
pub proof fn law_frame_header_gives_the_dimensions(
    marker: u8,
    hi: u8,
    lo: u8,
    precision: u8,
    height: (u8, u8),
    width: (u8, u8),
    rest: Seq<u8>,
)
    requires
        0xc0 <= marker <= 0xc3 || 0xc5 <= marker <= 0xc7 || 0xc9 <= marker <= 0xcb || 0xcd
            <= marker <= 0xcf,
        2 <= hi * 256 + lo <= rest.len() + 7,
        rest.len() >= 1,
    ensures
        jpeg_scan(
            seq![
                0xffu8,
                0xd8u8,
                0xffu8,
                marker,
                hi,
                lo,
                precision,
                height.0,
                height.1,
                width.0,
                width.1,
            ] + rest,
        ) == (JpegScan::Frame {
            width: (width.0 * 256 + width.1) as u32,
            height: (height.0 * 256 + height.1) as u32,
        }),
{
    let bytes = seq![
        0xffu8,
        0xd8u8,
        0xffu8,
        marker,
        hi,
        lo,
        precision,
        height.0,
        height.1,
        width.0,
        width.1,
    ] + rest;
    reveal_with_fuel(after_fill, 3);
    assert(bytes[2] == 0xff && bytes[3] == marker && bytes[4] == hi && bytes[5] == lo);
    assert(bytes[7] == height.0 && bytes[8] == height.1 && bytes[9] == width.0 && bytes[10]
        == width.1);
    assert(after_fill(bytes, 2) == 3);
    assert(segment_len(bytes, 4) == hi * 256 + lo);
}

/// The fill bytes `FF` that a file goes on with end at the first other byte.
proof fn lemma_fill(bytes: Seq<u8>, i: int, end: int)
    requires
        0 <= i <= end <= bytes.len(),
        forall|k: int| i <= k < end ==> #[trigger] bytes[k] == 0xff,
        end < bytes.len() ==> bytes[end] != 0xff,
    ensures
        after_fill(bytes, i) == end,
    decreases end - i,
{
    if i < end {
        assert(bytes[i] == 0xff);
        lemma_fill(bytes, i + 1, end);
    }
}

/// Fill bytes at the end of the file, with fewer than two bytes behind the marker
/// that follows them, give no dimensions.
pub proof fn law_fill_bytes_at_the_end(count: nat, rest: Seq<u8>)
    requires
        rest.len() <= 2,
        rest.len() > 0 ==> rest[0] != 0xff,
    ensures
        jpeg_scan(seq![0xffu8, 0xd8u8] + Seq::new(count, |k: int| 0xffu8) + rest)
            == JpegScan::NoFrame,
{
    let fill = Seq::new(count, |k: int| 0xffu8);
    let bytes = seq![0xffu8, 0xd8u8] + fill + rest;
    let end = 2 + count as int;
    assert forall|k: int| 2 <= k < end implies #[trigger] bytes[k] == 0xff by {
        assert(bytes[k] == fill[k - 2]);
    }
    if rest.len() > 0 {
        assert(bytes[end] == rest[0]);
    }
    lemma_fill(bytes, 2, end);
    if bytes.len() > 11 {
        assert(bytes[2] == 0xff);
    }
}

/// A file that ends, behind fill bytes, inside a frame header whose length does
/// not reach behind the end of the file is told apart.
pub proof fn law_cut_off_frame_header(count: nat, marker: u8, hi: u8, lo: u8, rest: Seq<u8>)
    requires
        0xc0 <= marker <= 0xc3 || 0xc5 <= marker <= 0xc7 || 0xc9 <= marker <= 0xcb || 0xcd
            <= marker <= 0xcf,
        rest.len() <= 4,
        2 <= hi * 256 + lo <= rest.len() + 2,
        count + 3 + rest.len() >= 10,
    ensures
        jpeg_scan(
            seq![0xffu8, 0xd8u8] + Seq::new(count, |k: int| 0xffu8) + seq![marker, hi, lo] + rest,
        ) == JpegScan::Truncated,
{
    let fill = Seq::new(count, |k: int| 0xffu8);
    let bytes = seq![0xffu8, 0xd8u8] + fill + seq![marker, hi, lo] + rest;
    let end = 2 + count as int;
    assert forall|k: int| 2 <= k < end implies #[trigger] bytes[k] == 0xff by {
        assert(bytes[k] == fill[k - 2]);
    }
    assert(bytes[end] == marker && bytes[end + 1] == hi && bytes[end + 2] == lo);
    lemma_fill(bytes, 2, end);
    assert(segment_len(bytes, end + 1) == hi * 256 + lo);
    assert(bytes[2] == 0xff);
}

/// A frame header gives the dimensions behind any number of fill bytes.
pub proof fn law_frame_header_behind_fill_bytes(
    count: nat,
    marker: u8,
    hi: u8,
    lo: u8,
    precision: u8,
    height: (u8, u8),
    width: (u8, u8),
    rest: Seq<u8>,
)
    requires
        0xc0 <= marker <= 0xc3 || 0xc5 <= marker <= 0xc7 || 0xc9 <= marker <= 0xcb || 0xcd
            <= marker <= 0xcf,
        2 <= hi * 256 + lo <= rest.len() + 7,
        count >= 1,
        count + 8 + rest.len() >= 10,
    ensures
        jpeg_scan(
            seq![0xffu8, 0xd8u8] + Seq::new(count, |k: int| 0xffu8) + seq![
                marker,
                hi,
                lo,
                precision,
                height.0,
                height.1,
                width.0,
                width.1,
            ] + rest,
        ) == (JpegScan::Frame {
            width: (width.0 * 256 + width.1) as u32,
            height: (height.0 * 256 + height.1) as u32,
        }),
{
    let fill = Seq::new(count, |k: int| 0xffu8);
    let header = seq![marker, hi, lo, precision, height.0, height.1, width.0, width.1];
    let bytes = seq![0xffu8, 0xd8u8] + fill + header + rest;
    let end = 2 + count as int;
    assert forall|k: int| 2 <= k < end implies #[trigger] bytes[k] == 0xff by {
        assert(bytes[k] == fill[k - 2]);
    }
    assert(bytes[end] == header[0] && bytes[end + 1] == header[1] && bytes[end + 2] == header[2]);
    assert(bytes[end + 4] == header[4] && bytes[end + 5] == header[5] && bytes[end + 6] == header[6]
        && bytes[end + 7] == header[7]);
    lemma_fill(bytes, 2, end);
    assert(segment_len(bytes, end + 1) == hi * 256 + lo);
    assert(bytes[2] == 0xff);
}

/// Behind any number of fill bytes, the last segment of a file gives no
/// dimensions where it is no frame header, or where its length is below 2 or
/// reaches behind the end of the file.
pub proof fn law_last_segment_behind_fill_bytes(
    count: nat,
    marker: u8,
    hi: u8,
    lo: u8,
    rest: Seq<u8>,
)
    requires
        marker != 0xff,
        rest.len() <= 9,
        !(0xc0 <= marker <= 0xc3 || 0xc5 <= marker <= 0xc7 || 0xc9 <= marker <= 0xcb || 0xcd
            <= marker <= 0xcf) || hi * 256 + lo < 2 || hi * 256 + lo > rest.len() + 2,
        count >= 1,
    ensures
        jpeg_scan(
            seq![0xffu8, 0xd8u8] + Seq::new(count, |k: int| 0xffu8) + seq![marker, hi, lo] + rest,
        ) == JpegScan::NoFrame,
{
    let fill = Seq::new(count, |k: int| 0xffu8);
    let bytes = seq![0xffu8, 0xd8u8] + fill + seq![marker, hi, lo] + rest;
    let end = 2 + count as int;
    assert forall|k: int| 2 <= k < end implies #[trigger] bytes[k] == 0xff by {
        assert(bytes[k] == fill[k - 2]);
    }
    assert(bytes[end] == marker && bytes[end + 1] == hi && bytes[end + 2] == lo);
    lemma_fill(bytes, 2, end);
    assert(segment_len(bytes, end + 1) == hi * 256 + lo);
    assert(bytes[2] == 0xff);
    if bytes.len() > 11 {
        if let Some(segment) = segment_at(bytes, 2) {
            assert(scan_from(bytes, end + 1 + segment_len(bytes, end + 1)) == JpegScan::NoFrame);
        }
    }
}

/// The walk over segments is the walk over what follows them.
proof fn lemma_segments_are_skipped(segments: Seq<(u8, Seq<u8>)>, rest: Seq<u8>)
    requires
        forall|k: int|
            0 <= k < segments.len() ==> {
                let marker = (#[trigger] segments[k]).0;
                &&& marker != 0xff && marker != 0xd9 && marker != 0xda
                &&& !(0xc0 <= marker <= 0xc3 || 0xc5 <= marker <= 0xc7 || 0xc9 <= marker <= 0xcb
                    || 0xcd <= marker <= 0xcf)
                &&& segments[k].1.len() + 2 <= 0xffff
            },
    ensures
        jpeg_scan(seq![0xffu8, 0xd8u8] + encode_segments(segments) + rest) == jpeg_scan(
            seq![0xffu8, 0xd8u8] + rest,
        ),
    decreases segments.len(),
{
    let start = seq![0xffu8, 0xd8u8];
    if segments.len() == 0 {
        assert(start + encode_segments(segments) + rest =~= start + rest);
    } else {
        let (marker, payload) = segments[0];
        let others = segments.drop_first();
        let len = payload.len() + 2;
        let tail = encode_segments(others) + rest;
        assert forall|k: int| 0 <= k < others.len() implies #[trigger] others[k] == segments[k
            + 1] by {}
        lemma_segments_are_skipped(others, rest);
        law_segment_is_skipped(marker, (len / 256) as u8, (len % 256) as u8, payload, tail);
        assert(start + encode_segments(segments) + rest =~= seq![
            0xffu8,
            0xd8u8,
            0xffu8,
            marker,
            (len / 256) as u8,
            (len % 256) as u8,
        ] + payload + tail);
        assert(start + encode_segments(others) + rest =~= start + tail);
    }
}

/// A file of the start marker, any segments whose markers are none of `D9`, `DA`,
/// `FF` and the frame markers `C0` to `C3`, `C5` to `C7`, `C9` to `CB` and `CD` to
/// `CF`, and a frame header gives the dimensions in that header, whatever follows.
pub proof fn law_dimensions_stand_in_the_first_frame_header(
    segments: Seq<(u8, Seq<u8>)>,
    marker: u8,
    precision: u8,
    width: u16,
    height: u16,
    components: Seq<u8>,
    rest: Seq<u8>,
)
    requires
        forall|k: int|
            0 <= k < segments.len() ==> {
                let other = (#[trigger] segments[k]).0;
                &&& other != 0xff && other != 0xd9 && other != 0xda
                &&& !(0xc0 <= other <= 0xc3 || 0xc5 <= other <= 0xc7 || 0xc9 <= other <= 0xcb
                    || 0xcd <= other <= 0xcf)
                &&& segments[k].1.len() + 2 <= 0xffff
            },
        0xc0 <= marker <= 0xc3 || 0xc5 <= marker <= 0xc7 || 0xc9 <= marker <= 0xcb || 0xcd
            <= marker <= 0xcf,
        components.len() + 7 <= 0xffff,
        components.len() + rest.len() >= 1,
    ensures
        scan_dimensions(
            jpeg_scan(
                seq![0xffu8, 0xd8u8] + encode_segments(segments) + encode_segment(
                    marker,
                    frame_payload(precision, width, height, components),
                ) + rest,
            ),
        ) == Some((width as u32, height as u32)),
{
    let start = seq![0xffu8, 0xd8u8];
    let payload = frame_payload(precision, width, height, components);
    let frame = encode_segment(marker, payload);
    let len = payload.len() + 2;
    let hi = (len / 256) as u8;
    let lo = (len % 256) as u8;
    let h = ((height / 256) as u8, (height % 256) as u8);
    let w = ((width / 256) as u8, (width % 256) as u8);
    lemma_segments_are_skipped(segments, frame + rest);
    law_frame_header_gives_the_dimensions(marker, hi, lo, precision, h, w, components + rest);
    assert(start + encode_segments(segments) + frame + rest =~= start + encode_segments(segments)
        + (frame + rest));
    assert(start + (frame + rest) =~= seq![
        0xffu8,
        0xd8u8,
        0xffu8,
        marker,
        hi,
        lo,
        precision,
        h.0,
        h.1,
        w.0,
        w.1,
    ] + (components + rest));
}

/// The dimensions of a file are those of the frame header that the walk reached,
/// the width first; there are none where it reached none.
pub proof fn law_dimensions_of_a_walk(scan: JpegScan)
    ensures
        scan matches JpegScan::Frame { width, height } ==> scan_dimensions(scan) == Some(
            (width, height),
        ),
        scan !is Frame ==> scan_dimensions(scan) is None,
{
}

} // verus!
