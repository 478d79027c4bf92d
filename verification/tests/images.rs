use convert_tex::image::{image_format, ImageFormat};
use convert_tex::jpeg::{jpeg_dimensions, scan_jpeg, JpegScan};
use convert_tex::png::png_dimensions;
use convert_tex::svg::{svg_dimensions, svg_number_attr, svg_numbers, SvgSizes};

fn png(width: u32, height: u32) -> Vec<u8> {
    let mut bytes = b"\x89PNG\r\n\x1a\n\0\0\0\rIHDR".to_vec();
    bytes.extend_from_slice(&width.to_be_bytes());
    bytes.extend_from_slice(&height.to_be_bytes());
    bytes
}

fn segment(marker: u8, payload: &[u8]) -> Vec<u8> {
    let len = (payload.len() + 2) as u16;
    let mut bytes = vec![0xff, marker];
    bytes.extend_from_slice(&len.to_be_bytes());
    bytes.extend_from_slice(payload);
    bytes
}

fn frame(marker: u8, width: u16, height: u16) -> Vec<u8> {
    let mut payload = vec![8];
    payload.extend_from_slice(&height.to_be_bytes());
    payload.extend_from_slice(&width.to_be_bytes());
    payload.extend_from_slice(&[1, 1, 0x11, 0]);
    segment(marker, &payload)
}

fn jpeg(parts: &[Vec<u8>]) -> Vec<u8> {
    let mut bytes = vec![0xff, 0xd8];
    for part in parts {
        bytes.extend_from_slice(part);
    }
    bytes
}

#[test]
fn formats_by_extension() {
    assert_eq!(image_format("a.png"), Some(ImageFormat::Png));
    assert_eq!(image_format("a.b.JPG"), Some(ImageFormat::Jpeg));
    assert_eq!(image_format("a.JpEg"), Some(ImageFormat::Jpeg));
    assert_eq!(image_format("a.svg"), Some(ImageFormat::Svg));
    assert_eq!(image_format("a.gif"), None);
    assert_eq!(image_format("png"), None);
    assert_eq!(image_format(".png"), None);
    assert_eq!(image_format("a.png."), None);
    assert_eq!(image_format("a.pn\u{212a}"), None);
}

#[test]
fn png_size() {
    assert_eq!(png_dimensions(&png(640, 480)), Some((640, 480)));
    assert_eq!(png_dimensions(&png(0x01020304, 0xfffefdfc)), Some((0x01020304, 0xfffefdfc)));
}

#[test]
fn png_appended_bytes_do_not_matter() {
    let mut bytes = png(640, 480);
    bytes.extend_from_slice(&[8, 6, 0, 0]);
    assert_eq!(png_dimensions(&bytes), Some((640, 480)));
    bytes[0] = 0;
    assert_eq!(png_dimensions(&bytes), None);
}

#[test]
fn png_without_header() {
    let bytes = png(640, 480);
    assert_eq!(png_dimensions(&bytes[..23]), None);
    assert_eq!(png_dimensions(&[]), None);
    for i in 0..8 {
        let mut broken = bytes.clone();
        broken[i] ^= 1;
        assert_eq!(png_dimensions(&broken), None);
    }
}

#[test]
fn jpeg_size() {
    let bytes = jpeg(&[segment(0xe0, b"JFIF\0"), frame(0xc0, 640, 480)]);
    assert_eq!(jpeg_dimensions(&bytes), Some((640, 480)));
    let bytes = jpeg(&[segment(0xc4, &[0; 20]), segment(0xdb, &[]), frame(0xc2, 65535, 1)]);
    assert_eq!(jpeg_dimensions(&bytes), Some((65535, 1)));
}

#[test]
fn jpeg_frame_markers() {
    for marker in 0xc0..=0xcfu8 {
        let bytes = jpeg(&[frame(marker, 3, 2), vec![0; 20]]);
        if marker == 0xc4 || marker == 0xc8 || marker == 0xcc {
            assert_eq!(jpeg_dimensions(&bytes), None);
        } else {
            assert_eq!(jpeg_dimensions(&bytes), Some((3, 2)));
        }
    }
}

#[test]
fn jpeg_fill_and_stray_bytes() {
    let bytes = jpeg(&[vec![0, 1, 2], vec![0xff; 5], frame(0xc0, 7, 9)]);
    assert_eq!(jpeg_dimensions(&bytes), Some((7, 9)));
}

#[test]
fn jpeg_appended_bytes_do_not_matter() {
    let bytes = jpeg(&[segment(0xe1, b"Exif"), frame(0xc1, 12, 34)]);
    let longer = jpeg(&[segment(0xe1, b"Exif"), frame(0xc1, 12, 34), frame(0xc0, 5, 6), vec![0xff; 9]]);
    assert_eq!(jpeg_dimensions(&bytes), Some((12, 34)));
    assert_eq!(jpeg_dimensions(&longer), Some((12, 34)));
}

#[test]
fn jpeg_without_frame() {
    assert_eq!(jpeg_dimensions(&[]), None);
    assert_eq!(jpeg_dimensions(&[0xff, 0xd8, 0xff]), None);
    assert_eq!(jpeg_dimensions(&frame(0xc0, 7, 9)), None);
    assert_eq!(jpeg_dimensions(&jpeg(&[vec![0xff; 30]])), None);
    assert_eq!(jpeg_dimensions(&jpeg(&[vec![0xff, 0xd9], frame(0xc0, 7, 9)])), None);
    assert_eq!(jpeg_dimensions(&jpeg(&[segment(0xda, &[0; 4]), frame(0xc0, 7, 9)])), None);
    assert_eq!(jpeg_dimensions(&jpeg(&[vec![0xff, 0xe0, 0, 1], frame(0xc0, 7, 9)])), None);
    assert_eq!(jpeg_dimensions(&jpeg(&[vec![0xff, 0xe0, 0xff, 0xff], frame(0xc0, 7, 9)])), None);
    assert_eq!(jpeg_dimensions(&jpeg(&[vec![0; 30]])), None);
}

#[test]
fn jpeg_cut_off_in_its_frame_header() {
    let mut bytes = jpeg(&[vec![0xff; 12]]);
    bytes.extend_from_slice(&[0xc0, 0, 2, 8, 0]);
    assert_eq!(scan_jpeg(&bytes), JpegScan::Truncated);
    bytes.extend_from_slice(&[7, 0]);
    assert_eq!(scan_jpeg(&bytes), JpegScan::Truncated);
    bytes.push(9);
    assert_eq!(scan_jpeg(&bytes), JpegScan::Frame { width: 9, height: 7 });
    assert_eq!(scan_jpeg(&[0xff, 0xd8]), JpegScan::NoFrame);
}

#[test]
fn svg_number_texts() {
    assert_eq!(svg_number_attr("<svg width='12.5pt'>", "width"), Some("12.5".to_string()));
    assert_eq!(svg_number_attr("<svg width='-3'>", "width"), Some(String::new()));
    assert_eq!(svg_number_attr("<svg width='1.2.3'>", "width"), Some("1.2.3".to_string()));
    assert_eq!(svg_number_attr("<svg height='3'>", "width"), None);
    let numbers = svg_numbers("<svg height=\"7em\" viewBox='0 0,\t10.5\n20'>");
    assert_eq!(numbers.width, None);
    assert_eq!(numbers.height, Some("7".to_string()));
    let parts: Vec<String> = ["0", "0", "", "10.5", "20"].iter().map(|p| p.to_string()).collect();
    assert_eq!(numbers.view_box, Some(parts));
    assert_eq!(svg_numbers("<svg viewbox=''>").view_box, Some(vec![String::new()]));
    assert_eq!(
        svg_numbers("<svg viewbox='1' viewBox='2'>").view_box,
        Some(vec!["2".to_string()])
    );
    assert_eq!(svg_numbers("<svg>").view_box, None);
}

#[test]
fn svg_size() {
    let both = SvgSizes {
        width: Some(3),
        height: Some(4),
        view_box: Some(vec![Some(0), Some(0), Some(5), Some(6)]),
    };
    assert_eq!(svg_dimensions(&both), Some((3, 4)));
    let box_only = SvgSizes {
        width: Some(3),
        height: None,
        view_box: Some(vec![Some(1), None, Some(2), Some(5), None, Some(6)]),
    };
    assert_eq!(svg_dimensions(&box_only), Some((5, 6)));
    let short = SvgSizes {
        width: None,
        height: Some(4),
        view_box: Some(vec![Some(0), Some(5), Some(6)]),
    };
    assert_eq!(svg_dimensions(&short), None);
    let long = SvgSizes { width: None, height: None, view_box: Some(vec![Some(0); 5]) };
    assert_eq!(svg_dimensions(&long), None);
    let none = SvgSizes { width: None, height: Some(4), view_box: None };
    assert_eq!(svg_dimensions(&none), None);
}
