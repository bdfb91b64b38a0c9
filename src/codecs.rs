//! Codec tags and the per-codec payload header parsers.
use vstd::prelude::*;

pub mod av1;
pub mod avc;
pub mod hevc;
pub mod vp9;

verus! {

/// The video codec carried by a stream.
#[derive(Debug, Clone, Copy, PartialEq, Eq, Structural)]
pub enum Codec {
    Vp9,
    Avc,
    Hevc,
    Av1,
    Unknown,
}

} // verus!
