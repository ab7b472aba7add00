use pixelspray::encode::{encode_sample, EncodeOptions, Filter, Sample};

fn opts(filter: Filter) -> EncodeOptions {
    EncodeOptions {
        filter,
        mask_color: 255,
        lossless: false,
        same_ch_opt: false,
        apply_offset: false,
        x_off: 0,
        y_off: 0,
    }
}

fn sample(x: u32, y: u32, r: u8, g: u8, b: u8, a: u8) -> Sample {
    Sample { x, y, r, g, b, a }
}

#[test]
fn rgba_opaque_six_digits() {
    let r = encode_sample(&sample(3, 7, 0xAB, 0x01, 0xFF, 255), &opts(Filter::Rgba));
    assert_eq!(r.unwrap(), b"PX 3 7 AB01FF\n".to_vec());
}

#[test]
fn rgba_translucent_eight_digits() {
    let r = encode_sample(&sample(3, 7, 0xAB, 0x01, 0xFF, 0x80), &opts(Filter::Rgba));
    assert_eq!(r.unwrap(), b"PX 3 7 AB01FF80\n".to_vec());
}

#[test]
fn mask_uses_configured_color() {
    let mut o = opts(Filter::Mask);
    o.mask_color = 0x2A;
    let r = encode_sample(&sample(0, 0, 1, 2, 3, 255), &o);
    assert_eq!(r.unwrap(), b"PX 0 0 2A\n".to_vec());
}

#[test]
fn grey_uses_red_channel() {
    let r = encode_sample(&sample(1, 2, 0xAB, 0x00, 0x10, 255), &opts(Filter::Grey));
    assert_eq!(r.unwrap(), b"PX 1 2 AB\n".to_vec());
}

#[test]
fn alpha_below_threshold_drops_sample() {
    // threshold 15: alpha 10 yields no command at all
    let r = encode_sample(&sample(5, 5, 9, 9, 9, 10), &opts(Filter::Rgba));
    assert!(r.is_none());
}

#[test]
fn alpha_threshold_is_exclusive() {
    assert!(encode_sample(&sample(0, 0, 1, 1, 1, 15), &opts(Filter::Rgba)).is_none());
    assert!(encode_sample(&sample(0, 0, 1, 1, 1, 16), &opts(Filter::Rgba)).is_some());
}

#[test]
fn lossless_keeps_all_but_fully_transparent() {
    let mut o = opts(Filter::Rgba);
    o.lossless = true;
    assert!(encode_sample(&sample(0, 0, 1, 1, 1, 1), &o).is_some());
    assert!(encode_sample(&sample(0, 0, 1, 1, 1, 0), &o).is_none());
}

#[test]
fn near_equal_channels_downgrade_to_average_grey() {
    let mut o = opts(Filter::Rgba);
    o.same_ch_opt = true;
    let r = encode_sample(&sample(4, 9, 100, 102, 103, 255), &o);
    // (100 + 102 + 103) / 3 == 101 == 0x65
    assert_eq!(r.unwrap(), b"PX 4 9 65\n".to_vec());
}

#[test]
fn distinct_channels_stay_full_color() {
    let mut o = opts(Filter::Rgba);
    o.same_ch_opt = true;
    let r = encode_sample(&sample(4, 9, 100, 110, 103, 255), &o);
    assert_eq!(r.unwrap(), b"PX 4 9 646E67\n".to_vec());
}

#[test]
fn lossless_downgrade_needs_exact_equality() {
    let mut o = opts(Filter::Rgba);
    o.same_ch_opt = true;
    o.lossless = true;
    let eq = encode_sample(&sample(1, 1, 9, 9, 9, 255), &o);
    assert_eq!(eq.unwrap(), b"PX 1 1 09\n".to_vec());
    let ne = encode_sample(&sample(1, 1, 9, 10, 9, 255), &o);
    assert_eq!(ne.unwrap(), b"PX 1 1 090A09\n".to_vec());
}

#[test]
fn offset_translates_coordinates() {
    let mut o = opts(Filter::Rgba);
    o.apply_offset = true;
    o.x_off = 10;
    o.y_off = 20;
    let r = encode_sample(&sample(1, 2, 0, 0, 0, 255), &o);
    assert_eq!(r.unwrap(), b"PX 11 22 000000\n".to_vec());
}

#[test]
fn largest_coordinate_formats_fully() {
    let r = encode_sample(&sample(4294967295, 0, 0, 0, 0, 255), &opts(Filter::Rgba));
    assert_eq!(r.unwrap(), b"PX 4294967295 0 000000\n".to_vec());
}
