//! Placement of the image on the canvas: the `<x>x<y>` offset expression with
//! `E` (flush against the end) and `M` (centered) per axis, and the decision
//! whether the image must be resized to fit the canvas.

use vstd::prelude::*;

use crate::parse::{spec_find_x, spec_parse_u32, parse_u32, split_at_x};

verus! {

/// One axis of an offset expression: `E` places the image at the canvas end,
/// `M` in the middle, digits give the offset outright. `None` on a malformed
/// token or an image larger than the canvas under `E`/`M`.
pub open spec fn spec_axis_offset(tok: Seq<u8>, canvas: u32, img: u32) -> Option<u32> {
    if tok == seq![69u8] {
        if img <= canvas {
            Some((canvas - img) as u32)
        } else {
            None
        }
    } else if tok == seq![77u8] {
        if img <= canvas {
            Some(((canvas - img) / 2) as u32)
        } else {
            None
        }
    } else {
        spec_parse_u32(tok)
    }
}

/// Computes one axis of the placement offset.
pub fn axis_offset(tok: &Vec<u8>, canvas: u32, img: u32) -> (r: Option<u32>)
    ensures
        r == spec_axis_offset(tok@, canvas, img),
{
    if tok.len() == 1 && tok[0] == 69 {
        assert(tok@ =~= seq![69u8]);
        if img <= canvas {
            Some(canvas - img)
        } else {
            None
        }
    } else if tok.len() == 1 && tok[0] == 77 {
        assert(tok@ =~= seq![77u8]);
        if img <= canvas {
            Some((canvas - img) / 2)
        } else {
            None
        }
    } else {
        proof {
            if tok@ == seq![69u8] {
                assert(tok@.len() == 1 && tok@[0] == 69);
            }
            if tok@ == seq![77u8] {
                assert(tok@.len() == 1 && tok@[0] == 77);
            }
        }
        parse_u32(tok)
    }
}

/// The two halves of `<a>x<b>`, split at the first `x`.
pub open spec fn spec_split_x(s: Seq<u8>) -> Option<(Seq<u8>, Seq<u8>)> {
    match spec_find_x(s) {
        Some(i) => Some((s.take(i), s.skip(i + 1))),
        None => None,
    }
}

/// What an explicit offset expression yields: both axes resolved against the
/// canvas and image sizes, or `None` when the expression is malformed.
pub open spec fn spec_placement_offset(s: Seq<u8>, sw: u32, sh: u32, w: u32, h: u32) -> Option<
    (u32, u32),
> {
    match spec_split_x(s) {
        None => None,
        Some(p) => match (spec_axis_offset(p.0, sw, w), spec_axis_offset(p.1, sh, h)) {
            (Some(x), Some(y)) => Some((x, y)),
            _ => None,
        },
    }
}

/// Resolves an explicit `<x>x<y>` offset expression.
pub fn placement_offset(expr: &Vec<u8>, sw: u32, sh: u32, w: u32, h: u32) -> (r: Option<
    (u32, u32),
>)
    ensures
        r == spec_placement_offset(expr@, sw, sh, w, h),
{
    match split_at_x(expr) {
        None => None,
        Some((a, b)) => {
            match (axis_offset(&a, sw, w), axis_offset(&b, sh, h)) {
                (Some(x), Some(y)) => Some((x, y)),
                _ => None,
            }
        },
    }
}

/// The placement offset used by the pipeline: the resolved expression when
/// one is given, the origin when none is.
pub open spec fn spec_offsets(expr: Option<Seq<u8>>, sw: u32, sh: u32, w: u32, h: u32) -> Option<
    (u32, u32),
> {
    match expr {
        Some(s) => spec_placement_offset(s, sw, sh, w, h),
        None => Some((0u32, 0u32)),
    }
}

/// Computes the placement offset before any worker connects.
pub fn compute_offsets(expr: Option<Vec<u8>>, sw: u32, sh: u32, w: u32, h: u32) -> (r: Option<
    (u32, u32),
>)
    ensures
        r == spec_offsets(
            match expr {
                Some(e) => Some(e@),
                None => None,
            },
            sw,
            sh,
            w,
            h,
        ),
{
    match expr {
        Some(e) => placement_offset(&e, sw, sh, w, h),
        None => Some((0, 0)),
    }
}

/// What a `<w>x<h>` resize expression yields.
pub open spec fn spec_parse_resize(s: Seq<u8>) -> Option<(u32, u32)> {
    match spec_split_x(s) {
        None => None,
        Some(p) => match (spec_parse_u32(p.0), spec_parse_u32(p.1)) {
            (Some(w), Some(h)) => Some((w, h)),
            _ => None,
        },
    }
}

/// Parses an explicit `<w>x<h>` resize expression.
pub fn parse_resize(expr: &Vec<u8>) -> (r: Option<(u32, u32)>)
    ensures
        r == spec_parse_resize(expr@),
{
    match split_at_x(expr) {
        None => None,
        Some((a, b)) => {
            match (parse_u32(&a), parse_u32(&b)) {
                (Some(w), Some(h)) => Some((w, h)),
                _ => None,
            }
        },
    }
}

/// The dimensions the image must be resized toward: an explicit request wins;
/// otherwise an image larger than the canvas in either axis is shrunk to the
/// canvas; an image that fits is left alone.
pub open spec fn spec_resize_target(w: u32, h: u32, sw: u32, sh: u32, wanted: Option<(u32, u32)>) -> Option<(u32, u32)> {
    match wanted {
        Some(d) => Some(d),
        None => if w > sw || h > sh {
            Some((sw, sh))
        } else {
            None
        },
    }
}

/// Decides whether and toward which size the image is resized.
pub fn resize_target(w: u32, h: u32, sw: u32, sh: u32, wanted: Option<(u32, u32)>) -> (r: Option<
    (u32, u32),
>)
    ensures
        r == spec_resize_target(w, h, sw, sh, wanted),
{
    match wanted {
        Some(d) => Some(d),
        None => if w > sw || h > sh {
            Some((sw, sh))
        } else {
            None
        },
    }
}

} // verus!
