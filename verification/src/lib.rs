//! Core of a pixel-flooding client: it turns image samples into `PX` protocol
//! lines, packs them into bounded chunks, and models the worker pool that
//! streams those chunks over many connections until told to stop.

pub mod dispatch;
pub mod encode;
pub mod numfmt;
pub mod pack;
pub mod parse;
pub mod pipeline;
pub mod placement;
pub mod shuffle;
pub mod supervise;
pub mod worker;
