use pixelspray::encode::{EncodeOptions, Filter, Sample};
use pixelspray::pipeline::{build_chunks, build_chunks_random};

fn full_color_opts() -> EncodeOptions {
    EncodeOptions {
        filter: Filter::Rgba,
        mask_color: 255,
        lossless: false,
        same_ch_opt: false,
        apply_offset: false,
        x_off: 0,
        y_off: 0,
    }
}

fn two_by_two() -> Vec<Sample> {
    vec![
        Sample { x: 0, y: 0, r: 0x10, g: 0x20, b: 0x30, a: 255 },
        Sample { x: 1, y: 0, r: 0x40, g: 0x50, b: 0x60, a: 255 },
        Sample { x: 0, y: 1, r: 0x70, g: 0x80, b: 0x90, a: 255 },
        Sample { x: 1, y: 1, r: 0xA0, g: 0xB0, b: 0xC0, a: 255 },
    ]
}

fn lines(chunk: &[u8]) -> Vec<Vec<u8>> {
    let mut out = Vec::new();
    let mut cur = Vec::new();
    for &b in chunk {
        cur.push(b);
        if b == b'\n' {
            out.push(std::mem::take(&mut cur));
        }
    }
    assert!(cur.is_empty(), "chunk ends mid-command");
    out
}

#[test]
fn small_opaque_image_fills_exactly_one_chunk() {
    // 2x2 opaque image, full color, no offset, chunk size ample: one chunk
    // holding all four PX lines, in some shuffled order
    let chunks = build_chunks(&two_by_two(), &full_color_opts(), 42, 1400);
    assert_eq!(chunks.len(), 1);
    let mut got = lines(&chunks[0]);
    got.sort();
    let mut want = vec![
        b"PX 0 0 102030\n".to_vec(),
        b"PX 1 0 405060\n".to_vec(),
        b"PX 0 1 708090\n".to_vec(),
        b"PX 1 1 A0B0C0\n".to_vec(),
    ];
    want.sort();
    assert_eq!(got, want);
    for line in lines(&chunks[0]) {
        assert!(line.starts_with(b"PX "));
        assert!(line.ends_with(b"\n"));
    }
}

#[test]
fn transparent_pixels_never_reach_a_chunk() {
    let mut samples = two_by_two();
    samples[2].a = 10;
    let chunks = build_chunks(&samples, &full_color_opts(), 42, 1400);
    let all: Vec<u8> = chunks.concat();
    assert_eq!(lines(&all).len(), 3);
}

#[test]
fn chunking_respects_the_maximum() {
    // each line is 14 bytes; two lines fit in 29 bytes, the third spills over
    let chunks = build_chunks(&two_by_two(), &full_color_opts(), 42, 29);
    assert_eq!(chunks.len(), 2);
    assert!(chunks[0].len() <= 29);
    assert_eq!(lines(&chunks[0]).len(), 2);
    assert_eq!(lines(&chunks[1]).len(), 2);
}

#[test]
fn fresh_seed_still_yields_every_command_exactly_once() {
    let chunks = build_chunks_random(&two_by_two(), &full_color_opts(), 1400);
    let all: Vec<u8> = chunks.concat();
    let mut got = lines(&all);
    got.sort();
    let mut want = vec![
        b"PX 0 0 102030\n".to_vec(),
        b"PX 1 0 405060\n".to_vec(),
        b"PX 0 1 708090\n".to_vec(),
        b"PX 1 1 A0B0C0\n".to_vec(),
    ];
    want.sort();
    assert_eq!(got, want);
}
