use pixelspray::parse::{canvas_size, parse_size_response, parse_u32, tokenize};
use pixelspray::placement::{compute_offsets, parse_resize, placement_offset, resize_target};

#[test]
fn size_response_parses_width_and_height() {
    let r = parse_size_response(&b"SIZE 100 50".to_vec());
    assert_eq!(r, Some((100, 50)));
}

#[test]
fn size_response_with_newline_and_extra_blanks() {
    let r = parse_size_response(&b"  SIZE   800  600 \n".to_vec());
    assert_eq!(r, Some((800, 600)));
}

#[test]
fn malformed_size_response_is_rejected() {
    assert_eq!(parse_size_response(&b"SIZE foo bar".to_vec()), None);
    assert_eq!(parse_size_response(&b"SIZE 100".to_vec()), None);
    assert_eq!(parse_size_response(&b"".to_vec()), None);
}

#[test]
fn canvas_falls_back_to_default_on_bad_response() {
    assert_eq!(canvas_size(Some(b"SIZE 100 50".to_vec())), (100, 50));
    assert_eq!(canvas_size(Some(b"garbage".to_vec())), (1024, 768));
    assert_eq!(canvas_size(None), (1024, 768));
}

#[test]
fn decimal_parsing_is_exact() {
    assert_eq!(parse_u32(&b"0".to_vec()), Some(0));
    assert_eq!(parse_u32(&b"042".to_vec()), Some(42));
    assert_eq!(parse_u32(&b"4294967295".to_vec()), Some(4294967295));
    assert_eq!(parse_u32(&b"4294967296".to_vec()), None);
    assert_eq!(parse_u32(&b"99999999999999999999".to_vec()), None);
    assert_eq!(parse_u32(&b"12a".to_vec()), None);
    assert_eq!(parse_u32(&b"".to_vec()), None);
}

#[test]
fn tokenizer_splits_on_ascii_whitespace() {
    let toks = tokenize(&b" one\ttwo \n three ".to_vec());
    let toks: Vec<&[u8]> = toks.iter().map(|t| t.as_slice()).collect();
    assert_eq!(toks, vec![b"one" as &[u8], b"two", b"three"]);
}

#[test]
fn end_offset_of_fitting_image_is_origin() {
    // canvas 100x50, image 100x50: flush against the end on both axes
    let r = placement_offset(&b"ExE".to_vec(), 100, 50, 100, 50);
    assert_eq!(r, Some((0, 0)));
}

#[test]
fn middle_offset_centers_the_image() {
    let r = placement_offset(&b"MxM".to_vec(), 100, 50, 50, 25);
    assert_eq!(r, Some((25, 12)));
}

#[test]
fn numeric_offsets_pass_through() {
    let r = placement_offset(&b"10x20".to_vec(), 100, 50, 1, 1);
    assert_eq!(r, Some((10, 20)));
}

#[test]
fn oversized_image_cannot_be_end_aligned() {
    assert_eq!(placement_offset(&b"ExE".to_vec(), 100, 50, 101, 50), None);
    assert_eq!(placement_offset(&b"MxM".to_vec(), 100, 50, 100, 51), None);
}

#[test]
fn malformed_offset_expressions_are_rejected() {
    assert_eq!(placement_offset(&b"x".to_vec(), 100, 50, 1, 1), None);
    assert_eq!(placement_offset(&b"1020".to_vec(), 100, 50, 1, 1), None);
    assert_eq!(placement_offset(&b"Qx3".to_vec(), 100, 50, 1, 1), None);
}

#[test]
fn no_expression_means_no_offset() {
    assert_eq!(compute_offsets(None, 100, 50, 10, 10), Some((0, 0)));
    assert_eq!(
        compute_offsets(Some(b"Ex0".to_vec()), 100, 50, 40, 10),
        Some((60, 0))
    );
}

#[test]
fn resize_expression_parses_dimensions() {
    assert_eq!(parse_resize(&b"640x480".to_vec()), Some((640, 480)));
    assert_eq!(parse_resize(&b"640".to_vec()), None);
    assert_eq!(parse_resize(&b"640x".to_vec()), None);
}

#[test]
fn image_is_shrunk_only_when_it_overflows_the_canvas() {
    assert_eq!(resize_target(200, 100, 100, 50, None), Some((100, 50)));
    assert_eq!(resize_target(100, 50, 100, 50, None), None);
    assert_eq!(resize_target(10, 90, 100, 50, None), Some((100, 50)));
    assert_eq!(resize_target(10, 10, 100, 50, Some((64, 64))), Some((64, 64)));
}
