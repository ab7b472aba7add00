//! The command encoder: one image sample becomes zero or one `PX` lines,
//! after the alpha filter, the channel-selection policy and the optional
//! placement translation.

use vstd::prelude::*;

use crate::numfmt::{push_dec_u32, push_hex_u8, spec_dec, spec_hex_byte};

verus! {

/// One image pixel: position and RGBA color.
#[derive(Clone, Copy, Debug, PartialEq, Eq, Structural)]
pub struct Sample {
    pub x: u32,
    pub y: u32,
    pub r: u8,
    pub g: u8,
    pub b: u8,
    pub a: u8,
}

/// Which channels a command carries.
#[derive(Clone, Copy, Debug, PartialEq, Eq, Structural)]
pub enum Filter {
    /// Every kept pixel is drawn in one configured color.
    Mask,
    /// Greyscale, taken from the red channel.
    Grey,
    /// Full color, with alpha only when the pixel is not fully opaque.
    Rgba,
}

/// The encoder's configuration.
#[derive(Clone, Copy, Debug)]
pub struct EncodeOptions {
    pub filter: Filter,
    /// The color sent for every pixel under `Filter::Mask`.
    pub mask_color: u8,
    /// Keep every pixel that is not fully transparent; otherwise pixels with
    /// alpha of 15 or below are dropped.
    pub lossless: bool,
    /// Downgrade a pixel to greyscale when its channels are (nearly) equal.
    pub same_ch_opt: bool,
    /// Translate coordinates by the placement offset while encoding (used
    /// when the server is not told the offset once per connection).
    pub apply_offset: bool,
    pub x_off: u32,
    pub y_off: u32,
}

/// Whether the alpha filter keeps the sample.
pub open spec fn spec_keeps_alpha(a: u8, lossless: bool) -> bool {
    if lossless {
        a != 0
    } else {
        a > 15
    }
}

pub open spec fn spec_abs_diff(x: u8, y: u8) -> int {
    if x >= y {
        x - y
    } else {
        y - x
    }
}

/// Whether the same-channel heuristic downgrades this sample to greyscale.
pub open spec fn spec_downgrades(s: Sample, o: EncodeOptions) -> bool {
    &&& o.same_ch_opt
    &&& o.filter != Filter::Mask
    &&& if o.lossless {
        s.r == s.g && s.g == s.b
    } else {
        spec_abs_diff(s.r, s.g) <= 4 && spec_abs_diff(s.g, s.b) <= 4 && spec_abs_diff(
            s.b,
            s.r,
        ) <= 4
    }
}

/// The filter actually used for a sample, after the downgrade heuristic.
pub open spec fn spec_effective_filter(s: Sample, o: EncodeOptions) -> Filter {
    if spec_downgrades(s, o) {
        Filter::Grey
    } else {
        o.filter
    }
}

/// The grey value used under `Filter::Grey`: the red channel, or the channel
/// average when the lossy same-channel heuristic applied.
pub open spec fn spec_grey_value(s: Sample, o: EncodeOptions) -> u8 {
    if spec_downgrades(s, o) && !o.lossless {
        ((s.r + s.g + s.b) / 3) as u8
    } else {
        s.r
    }
}

/// The hex characters of the color part of the command.
pub open spec fn spec_color_hex(s: Sample, o: EncodeOptions) -> Seq<u8> {
    match spec_effective_filter(s, o) {
        Filter::Mask => spec_hex_byte(o.mask_color),
        Filter::Grey => spec_hex_byte(spec_grey_value(s, o)),
        Filter::Rgba => if s.a == 255 {
            spec_hex_byte(s.r) + spec_hex_byte(s.g) + spec_hex_byte(s.b)
        } else {
            spec_hex_byte(s.r) + spec_hex_byte(s.g) + spec_hex_byte(s.b) + spec_hex_byte(s.a)
        },
    }
}

/// A full command line: `PX <x> <y> <color>\n`.
pub open spec fn spec_px_line(x: u32, y: u32, color: Seq<u8>) -> Seq<u8> {
    seq![80u8, 88u8, 32u8] + spec_dec(x as nat) + seq![32u8] + spec_dec(y as nat) + seq![32u8]
        + color + seq![10u8]
}

/// The encoder's whole contract: `None` exactly when the alpha filter drops
/// the sample, else the one command line for it.
pub open spec fn spec_encode(s: Sample, o: EncodeOptions) -> Option<Seq<u8>> {
    if !spec_keeps_alpha(s.a, o.lossless) {
        None
    } else {
        let x = if o.apply_offset {
            (s.x + o.x_off) as u32
        } else {
            s.x
        };
        let y = if o.apply_offset {
            (s.y + o.y_off) as u32
        } else {
            s.y
        };
        Some(spec_px_line(x, y, spec_color_hex(s, o)))
    }
}

/// Encodes one sample, or drops it when its alpha is under the filter's
/// threshold.
#[verifier::rlimit(50)]
pub fn encode_sample(s: &Sample, o: &EncodeOptions) -> (r: Option<Vec<u8>>)
    requires
        o.apply_offset ==> s.x + o.x_off <= u32::MAX && s.y + o.y_off <= u32::MAX,
    ensures
        match r {
            Some(v) => spec_encode(*s, *o) == Some(v@),
            None => spec_encode(*s, *o) is None,
        },
{
    let keep = if o.lossless {
        s.a != 0
    } else {
        s.a > 15
    };
    if !keep {
        return None;
    }
    let x = if o.apply_offset {
        s.x + o.x_off
    } else {
        s.x
    };
    let y = if o.apply_offset {
        s.y + o.y_off
    } else {
        s.y
    };

    let mut filter = o.filter;
    let mut grey: u8 = s.r;
    if o.same_ch_opt && !matches!(o.filter, Filter::Mask) {
        if o.lossless {
            if s.r == s.g && s.g == s.b {
                filter = Filter::Grey;
            }
        } else {
            let rg = if s.r >= s.g {
                s.r - s.g
            } else {
                s.g - s.r
            };
            let gb = if s.g >= s.b {
                s.g - s.b
            } else {
                s.b - s.g
            };
            let br = if s.b >= s.r {
                s.b - s.r
            } else {
                s.r - s.b
            };
            if rg <= 4 && gb <= 4 && br <= 4 {
                grey = ((s.r as u16 + s.g as u16 + s.b as u16) / 3) as u8;
                filter = Filter::Grey;
            }
        }
    }

    assert(filter == spec_effective_filter(*s, *o));
    assert(grey == spec_grey_value(*s, *o));

    let ghost prefix = seq![80u8, 88u8, 32u8] + spec_dec(x as nat) + seq![32u8] + spec_dec(
        y as nat,
    ) + seq![32u8];
    let mut out: Vec<u8> = Vec::new();
    out.push(80);
    out.push(88);
    out.push(32);
    push_dec_u32(&mut out, x);
    out.push(32);
    push_dec_u32(&mut out, y);
    out.push(32);
    assert(out@ =~= prefix);
    match filter {
        Filter::Mask => push_hex_u8(&mut out, o.mask_color),
        Filter::Grey => push_hex_u8(&mut out, grey),
        Filter::Rgba => {
            push_hex_u8(&mut out, s.r);
            push_hex_u8(&mut out, s.g);
            push_hex_u8(&mut out, s.b);
            if s.a != 255 {
                push_hex_u8(&mut out, s.a);
            }
        },
    }
    assert(out@ =~= prefix + spec_color_hex(*s, *o));
    out.push(10);
    assert(out@ =~= spec_px_line(x, y, spec_color_hex(*s, *o)));
    Some(out)
}

/// The sequence of command lines for a sequence of samples, dropped samples
/// left out, order kept.
pub open spec fn spec_encode_all(ss: Seq<Sample>, o: EncodeOptions) -> Seq<Seq<u8>>
    decreases ss.len(),
{
    if ss.len() == 0 {
        Seq::empty()
    } else {
        match spec_encode(ss[0], o) {
            Some(c) => seq![c] + spec_encode_all(ss.drop_first(), o),
            None => spec_encode_all(ss.drop_first(), o),
        }
    }
}

/// Every command the encoder emits is a nonempty line of at most 34 bytes:
/// `PX `, up to ten digits per coordinate, up to eight hex characters, the
/// separators and the newline.
pub proof fn lemma_encoded_command_bounds(s: Sample, o: EncodeOptions)
    ensures
        match spec_encode(s, o) {
            Some(c) => 0 < c.len() <= 34,
            None => true,
        },
{
    if spec_keeps_alpha(s.a, o.lossless) {
        let x = if o.apply_offset {
            (s.x + o.x_off) as u32
        } else {
            s.x
        };
        let y = if o.apply_offset {
            (s.y + o.y_off) as u32
        } else {
            s.y
        };
        crate::numfmt::lemma_dec_len_u32(x as nat);
        crate::numfmt::lemma_dec_len_u32(y as nat);
        assert(2 <= spec_color_hex(s, o).len() <= 8);
    }
}

/// Every command of an encoded sample sequence is nonempty and at most 34
/// bytes long.
pub proof fn lemma_encode_all_bounds(ss: Seq<Sample>, o: EncodeOptions)
    ensures
        forall|i: int|
            0 <= i < spec_encode_all(ss, o).len() ==> 0 < (#[trigger] spec_encode_all(ss, o)[
                i]).len() <= 34,
    decreases ss.len(),
{
    if ss.len() > 0 {
        lemma_encode_all_bounds(ss.drop_first(), o);
        lemma_encoded_command_bounds(ss[0], o);
        let rest = spec_encode_all(ss.drop_first(), o);
        match spec_encode(ss[0], o) {
            Some(c) => {
                let whole = seq![c] + rest;
                assert(spec_encode_all(ss, o) == whole);
                assert forall|i: int| 0 <= i < whole.len() implies 0 < (#[trigger] whole[i]).len()
                    <= 34 by {
                    if i > 0 {
                        assert(whole[i] == rest[i - 1]);
                    }
                }
            },
            None => {},
        }
    }
}

/// Encodes a whole sample sequence, in order.
pub fn encode_samples(samples: &Vec<Sample>, o: &EncodeOptions) -> (r: Vec<Vec<u8>>)
    requires
        o.apply_offset ==> forall|i: int|
            0 <= i < samples@.len() ==> samples@[i].x + o.x_off <= u32::MAX && samples@[i].y
                + o.y_off <= u32::MAX,
    ensures
        r.deep_view() == spec_encode_all(samples@, *o),
{
    let mut out: Vec<Vec<u8>> = Vec::new();
    let mut i: usize = 0;
    proof {
        assert(samples@.skip(0) =~= samples@);
        assert(out.deep_view() + spec_encode_all(samples@, *o) =~~= spec_encode_all(samples@, *o));
    }
    while i < samples.len()
        invariant
            0 <= i <= samples@.len(),
            o.apply_offset ==> forall|k: int|
                0 <= k < samples@.len() ==> samples@[k].x + o.x_off <= u32::MAX && samples@[k].y
                    + o.y_off <= u32::MAX,
            spec_encode_all(samples@, *o) == out.deep_view() + spec_encode_all(
                samples@.skip(i as int),
                *o,
            ),
        decreases samples@.len() - i,
    {
        let ghost rest = samples@.skip(i as int);
        let ghost old_dv = out.deep_view();
        assert(rest[0] == samples@[i as int]);
        assert(rest.drop_first() =~= samples@.skip(i as int + 1));
        match encode_sample(&samples[i], o) {
            Some(c) => {
                let ghost cv = c@;
                out.push(c);
                proof {
                    assert(spec_encode_all(rest, *o) == seq![cv] + spec_encode_all(
                        rest.drop_first(),
                        *o,
                    ));
                    assert(out.deep_view() =~~= old_dv + seq![cv]);
                    assert(out.deep_view() + spec_encode_all(samples@.skip(i as int + 1), *o)
                        =~~= old_dv + spec_encode_all(rest, *o));
                }
            },
            None => {},
        }
        i = i + 1;
    }
    assert(samples@.skip(i as int) =~= Seq::<Sample>::empty());
    assert(out.deep_view() =~~= out.deep_view() + spec_encode_all(samples@.skip(i as int), *o));
    out
}

} // verus!
