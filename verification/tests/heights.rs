use convert_tex::aspect::display_height;

/// The height in floating point arithmetic.
fn float_height(display_width: u32, natural_width: u32, natural_height: u32) -> u32 {
    ((display_width as f64) * (natural_height as f64) / (natural_width as f64))
        .round()
        .max(1.0) as u32
}

#[test]
fn exact_heights() {
    assert_eq!(display_height(50, 200, 100), 25);
    assert_eq!(display_height(1, 2, 1), 1);
    assert_eq!(display_height(3, 2, 1), 2);
    assert_eq!(display_height(1, 3, 1), 1);
    assert_eq!(display_height(10, 4, 3), 8);
    assert_eq!(display_height(333, 1000, 500), 167);
}

#[test]
fn heights_at_the_limits() {
    assert_eq!(display_height(0, 5, 5), 1);
    assert_eq!(display_height(5, 5, 0), 1);
    assert_eq!(display_height(5, 0, 5), u32::MAX);
    assert_eq!(display_height(0, 0, 5), 1);
    assert_eq!(display_height(u32::MAX, 1, u32::MAX), u32::MAX);
    assert_eq!(display_height(u32::MAX, 1, 1), u32::MAX);
    assert_eq!(display_height(1, u32::MAX, 1), 1);
}

#[test]
fn natural_width_gives_natural_height() {
    for width in [1u32, 2, 3, 7, 640, 65535, 1 << 31, u32::MAX - 1, u32::MAX] {
        for height in [1u32, 2, 480, 99999, (1 << 31) + 1, u32::MAX] {
            assert_eq!(display_height(width, width, height), height);
        }
        assert_eq!(display_height(width, width, 0), 1);
    }
}

#[test]
fn small_products_are_exact() {
    for width in 1..40u32 {
        for natural_width in 1..40u32 {
            for natural_height in 1..40u32 {
                let twice = 2 * width * natural_height + natural_width;
                let exact = (twice / (2 * natural_width)).max(1);
                assert_eq!(display_height(width, natural_width, natural_height), exact);
            }
        }
    }
}

#[test]
fn heights_agree_with_floating_point() {
    let edges = [
        0u32, 1, 2, 3, 5, 10, 640, 65535, 65536, 99_999_989, 0x3fff_ffff, 0x7fff_ffff, 0x8000_0000,
        0x8000_0001, 0xaaaa_aaab, 0xffff_fffd, 0xffff_fffe, 0xffff_ffff,
    ];
    for a in edges {
        for b in edges {
            for c in edges {
                assert_eq!(display_height(a, b, c), float_height(a, b, c), "{} {} {}", a, b, c);
            }
        }
    }
    let mut state: u64 = 0x9e37_79b9_7f4a_7c15;
    for round in 0..200_000u32 {
        let mut next = || {
            state ^= state << 13;
            state ^= state >> 7;
            state ^= state << 17;
            ((state >> 32) as u32) >> (round % 20)
        };
        let (a, b, c) = (next(), next(), next());
        assert_eq!(display_height(a, b, c), float_height(a, b, c), "{} {} {}", a, b, c);
    }
}

#[test]
fn heights_near_one_half_agree_with_floating_point() {
    // Products above 53 bits whose quotient lies next to a half.
    for d in [0xffff_fffbu32, 0xffff_ffef, 0x9000_0001, 0xc000_0003, 0xffff_ffff] {
        for k in [0x1000_0000u64, 0x3fff_ffff, 0x7fff_fffe, 0xffff_fff0] {
            let target = (2 * k + 1) * (d as u64) / 2;
            for a in [0xffff_ffffu64, 0xffff_fff1, 0xf000_0001, 0xdead_beef] {
                let c = target / a;
                for delta in 0..4u64 {
                    let h = c + delta;
                    if h <= u32::MAX as u64 {
                        let (a, c) = (a as u32, h as u32);
                        assert_eq!(display_height(a, d, c), float_height(a, d, c));
                    }
                }
            }
        }
    }
}
