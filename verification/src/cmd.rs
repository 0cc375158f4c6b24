use vstd::prelude::*;

verus! {

/// One timed playback command inside a track's command sequence.
///
/// The wire encoding is variable-length and opcode-discriminated; the
/// catalogue here is the structural core of the format: a note event, a
/// timed rest, and an offset-bearing control command (`Jump`), plus the
/// implicit end-of-track marker that terminates every encoded sequence
/// (the marker is not represented in memory; every sequence gets one on
/// encode and parsing stops at it on decode).
#[derive(Clone, Copy, PartialEq, Eq, Debug)]
pub enum Command {
    /// A note event: pitch, velocity and duration, one byte each.
    Note { pitch: u8, velocity: u8, duration: u8 },
    /// A rest for the given number of ticks. Held as `u32` in memory but
    /// written as 16 bits, so durations above `0xFFFF` cannot be encoded.
    Rest { duration: u32 },
    /// A control command referencing another byte position in the song's
    /// command-data region. `target` is relative to the region's base (the
    /// end of the fixed header); the encoder derives the absolute position
    /// written to the wire, and the decoder strips the base back off.
    Jump { target: u32 },
}

/// The ordered command list of one track.
pub type CommandSeq = Vec<Command>;

} // verus!
