//! A bidirectional codec for the BGM binary music-sequence format, plus the
//! small decision helpers of the surrounding editor that are plain logic.
//!
//! A song is a fixed set of four segment slots; a segment is an ordered list
//! of subsegments; a subsegment is either a bank of sixteen parallel tracks
//! or an opaque three-byte block; a track is a sequence of timed commands.
//! `de::decode` parses a byte buffer into a [`Bgm`], `Bgm::as_bytes` lays a
//! [`Bgm`] back out as bytes, and `laws` states and proves what the pair
//! guarantees, chiefly that decoding an encoded song gives the song back.

use vstd::prelude::*;

pub mod cmd;
pub mod de;
pub mod en;
pub mod laws;
pub mod logger;
pub mod ui;
pub mod wire;

pub use cmd::Command;
pub use cmd::CommandSeq;

verus! {

/// The in-memory form of one song.
#[derive(Clone, PartialEq, Eq, Debug)]
pub struct Bgm {
    /// ASCII song index. On the wire it is exactly 4 bytes; a shorter
    /// logical name is right-padded with spaces by the encoder, so a decoded
    /// song always carries exactly 4 bytes here.
    pub index: Vec<u8>,
    /// The four fixed segment slots. An empty slot (`None`) is meaningful
    /// and distinct from a present segment with no subsegments.
    pub segments: [Option<Segment>; 4],
}

/// A segment: an ordered, variable-length list of subsegments.
pub type Segment = Vec<Subsegment>;

/// One building block of a segment: either a bank of 16 parallel tracks or
/// an uninterpreted 3-byte block carried through byte-for-byte.
#[derive(Clone, PartialEq, Eq, Debug)]
pub enum Subsegment {
    Tracks { flags: u8, tracks: [Track; 16] },
    Unknown { flags: u8, data: [u8; 3] },
}

/// One of the 16 lanes of a `Subsegment::Tracks`: opaque 16-bit flags and a
/// command sequence. An "empty" track has a trivial command sequence; it is
/// still present.
#[derive(Clone, PartialEq, Eq, Debug)]
pub struct Track {
    pub flags: u16,
    pub commands: CommandSeq,
}

/// Mathematical model of a [`Track`].
pub struct TrackView {
    pub flags: u16,
    pub commands: Seq<Command>,
}

/// Mathematical model of a [`Subsegment`].
pub enum SubsegmentView {
    Tracks { flags: u8, tracks: Seq<TrackView> },
    Unknown { flags: u8, data: Seq<u8> },
}

/// Mathematical model of a [`Bgm`].
pub struct BgmView {
    pub index: Seq<u8>,
    pub segments: Seq<Option<Seq<SubsegmentView>>>,
}

impl View for Track {
    type V = TrackView;

    open spec fn view(&self) -> TrackView {
        TrackView { flags: self.flags, commands: self.commands@ }
    }
}

/// Model of a track bank: the views of its 16 tracks, in order.
pub open spec fn tracks_view(ts: [Track; 16]) -> Seq<TrackView> {
    ts@.map(|i: int, t: Track| t@)
}

/// Model of the four segment slots.
pub open spec fn segments_view(segs: [Option<Segment>; 4]) -> Seq<Option<Seq<SubsegmentView>>> {
    segs@.map(
        |i: int, s: Option<Segment>| match s {
            Some(seg) => Some(seg_view(seg)),
            None => None,
        },
    )
}

impl View for Subsegment {
    type V = SubsegmentView;

    open spec fn view(&self) -> SubsegmentView {
        match self {
            Subsegment::Tracks { flags, tracks } => SubsegmentView::Tracks {
                flags: *flags,
                tracks: tracks_view(*tracks),
            },
            Subsegment::Unknown { flags, data } => SubsegmentView::Unknown {
                flags: *flags,
                data: data@,
            },
        }
    }
}

/// Model of one segment: the views of its subsegments, in order.
pub open spec fn seg_view(s: Segment) -> Seq<SubsegmentView> {
    s@.map(|i: int, sub: Subsegment| sub@)
}

impl View for Bgm {
    type V = BgmView;

    open spec fn view(&self) -> BgmView {
        BgmView { index: self.index@, segments: segments_view(self.segments) }
    }
}

impl Subsegment {
    /// The flags byte shared by both subsegment shapes.
    pub fn flags(&self) -> (r: u8)
        ensures
            r == self@.flags(),
    {
        match *self {
            Subsegment::Tracks { flags, .. } => flags,
            Subsegment::Unknown { flags, .. } => flags,
        }
    }
}

impl SubsegmentView {
    /// The flags byte of either shape, at the model level.
    pub open spec fn flags(self) -> u8 {
        match self {
            SubsegmentView::Tracks { flags, .. } => flags,
            SubsegmentView::Unknown { flags, .. } => flags,
        }
    }
}

impl Default for Track {
    /// An empty track: zero flags, no commands.
    fn default() -> (t: Track)
        ensures
            t.flags == 0,
            t.commands@ == Seq::<Command>::empty(),
    {
        Track { flags: 0, commands: Vec::new() }
    }
}

impl Default for Bgm {
    /// A fresh song: filler index `"xxx "` and all four slots empty.
    fn default() -> (b: Bgm)
        ensures
            b@.index == seq![120u8, 120u8, 120u8, 32u8],
            b@.segments == seq![
                None::<Seq<SubsegmentView>>,
                None::<Seq<SubsegmentView>>,
                None::<Seq<SubsegmentView>>,
                None::<Seq<SubsegmentView>>,
            ],
    {
        let mut index: Vec<u8> = Vec::new();
        index.push(120);
        index.push(120);
        index.push(120);
        index.push(32);
        let b = Bgm { index, segments: [None, None, None, None] };
        proof {
            assert(b@.index =~= seq![120u8, 120u8, 120u8, 32u8]);
            assert(b@.segments =~= seq![
                None::<Seq<SubsegmentView>>,
                None::<Seq<SubsegmentView>>,
                None::<Seq<SubsegmentView>>,
                None::<Seq<SubsegmentView>>,
            ]);
        }
        b
    }
}

/// What `align` returns, as a function over unbounded integers: `value`
/// itself when `n` is 0 or 1; `n` when `value` is already a multiple of `n`
/// (the format deliberately advances over an exact multiple rather than
/// keeping it); otherwise the next multiple of `n` above `value`.
pub open spec fn spec_align(value: int, n: int) -> int {
    if n <= 1 {
        value
    } else if value % n == 0 {
        n
    } else {
        value + (n - value % n)
    }
}

/// Aligns a value to the next multiple of n.
pub fn align(value: u32, n: u32) -> (r: u32)
    requires
        spec_align(value as int, n as int) <= u32::MAX,
    ensures
        r == spec_align(value as int, n as int),
{
    if n <= 1 {
        return value;
    }
    if value % n == 0 {
        n
    } else {
        value + (n - value % n)
    }
}

} // verus!
