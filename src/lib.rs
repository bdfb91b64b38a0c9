//! Reassembly of video frames from real-time transport packets.
pub mod analyze;
pub mod codecs;
pub mod collector;
pub mod frame_bytes;
pub mod guess;
pub mod reassemble;
pub mod rtp;

pub use codecs::Codec;
pub use rtp::{RtpError, RtpHeader, RtpPacket};
pub use analyze::{FrameAnalyzer, FrameBoundary};
pub use reassemble::{FrameReassembler, ReorderConfig};
