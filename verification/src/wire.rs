//! The byte-level layout of the format, as spec functions: sizes, encodings,
//! and parsers. `en` and `de` prove their executable code equal to these
//! definitions, and `laws` proves the properties that relate them.
//!
//! Layout of an encoded song:
//! - bytes 0..4: the signature `"BGM "`;
//! - bytes 4..8: the song index, right-padded with spaces to 4 bytes;
//! - bytes 8..24: four 32-bit little-endian segment pointers, `0` meaning
//!   an empty slot, otherwise the absolute offset of the segment's first
//!   byte, aligned to a 4-byte boundary (padding bytes are zero);
//! - each segment: a run of fixed-size subsegment records closed by a zero
//!   terminator byte, followed by the command bodies of its track banks.
//!   A `Tracks` record is `[1, flags]` plus 16 six-byte track headers
//!   (16-bit flags, 32-bit absolute pointer to that track's command bytes);
//!   an `Unknown` record is `[2, flags]` plus its 3 raw bytes.
//! - a command body: variable-length commands closed by a zero byte. A
//!   `Jump`'s stored target is relative to the command-data region's base
//!   (the end of the 24-byte header); the wire carries the absolute offset.

use vstd::prelude::*;
use vstd::bytes::*;
use crate::cmd::Command;
use crate::de::DecodeError;
use crate::{BgmView, SubsegmentView, TrackView};

verus! {

/// Size of the fixed header: signature, index, four segment pointers.
/// Also the base address of the command-data region that `Jump` targets
/// are relative to.
pub const HEADER_SIZE: u32 = 24;

/// The 4-byte signature `"BGM "` that opens every encoded song.
pub open spec fn magic() -> Seq<u8> {
    seq![66u8, 71u8, 77u8, 32u8]
}

// ---------------------------------------------------------------- commands

/// A `Rest` must fit the 16-bit duration field on the wire.
pub open spec fn rest_ok(c: Command) -> bool {
    match c {
        Command::Rest { duration } => duration <= 0xFFFF,
        _ => true,
    }
}

/// A `Jump`'s absolute offset must fit the 32-bit pointer field.
pub open spec fn jump_ok(c: Command) -> bool {
    match c {
        Command::Jump { target } => target + HEADER_SIZE <= u32::MAX,
        _ => true,
    }
}

/// Encoded size of one command, in bytes.
pub open spec fn cmd_size(c: Command) -> int {
    match c {
        Command::Note { .. } => 4,
        Command::Rest { .. } => 3,
        Command::Jump { .. } => 5,
    }
}

/// The wire bytes of one command.
pub open spec fn enc_cmd(c: Command) -> Seq<u8> {
    match c {
        Command::Note { pitch, velocity, duration } => seq![1u8, pitch, velocity, duration],
        Command::Rest { duration } => seq![2u8] + spec_u16_to_le_bytes(duration as u16),
        Command::Jump { target } => seq![3u8] + spec_u32_to_le_bytes(
            (target + HEADER_SIZE) as u32,
        ),
    }
}

/// Encoded size of the commands from index `l` on, terminator included.
pub open spec fn cmds_size_from(cs: Seq<Command>, l: int) -> int
    decreases cs.len() - l,
{
    if l < 0 || l >= cs.len() {
        1
    } else {
        cmd_size(cs[l]) + cmds_size_from(cs, l + 1)
    }
}

/// Encoded size of a whole command sequence, terminator included.
pub open spec fn cmds_size(cs: Seq<Command>) -> int {
    cmds_size_from(cs, 0)
}

/// The wire bytes of the commands from index `l` on, terminator included.
pub open spec fn enc_cmds_from(cs: Seq<Command>, l: int) -> Seq<u8>
    decreases cs.len() - l,
{
    if l < 0 || l >= cs.len() {
        seq![0u8]
    } else {
        enc_cmd(cs[l]) + enc_cmds_from(cs, l + 1)
    }
}

/// The wire bytes of one whole command body.
pub open spec fn enc_cmds(cs: Seq<Command>) -> Seq<u8> {
    enc_cmds_from(cs, 0)
}

pub open spec fn cmds_rests_ok(cs: Seq<Command>) -> bool {
    forall|l: int| 0 <= l < cs.len() ==> rest_ok(#[trigger] cs[l])
}

pub open spec fn cmds_jumps_ok(cs: Seq<Command>) -> bool {
    forall|l: int| 0 <= l < cs.len() ==> jump_ok(#[trigger] cs[l])
}

// ------------------------------------------------------------------ tracks

/// Total size of the command bodies of the tracks from index `j` on.
pub open spec fn bodies_size_from(ts: Seq<TrackView>, j: int) -> int
    decreases ts.len() - j,
{
    if j < 0 || j >= ts.len() {
        0
    } else {
        cmds_size(ts[j].commands) + bodies_size_from(ts, j + 1)
    }
}

/// The six-byte track headers from index `j` on, where `body_pos` is the
/// absolute position of track `j`'s command body.
pub open spec fn enc_track_hdrs_from(ts: Seq<TrackView>, j: int, body_pos: int) -> Seq<u8>
    decreases ts.len() - j,
{
    if j < 0 || j >= ts.len() {
        Seq::empty()
    } else {
        spec_u16_to_le_bytes(ts[j].flags) + spec_u32_to_le_bytes(body_pos as u32)
            + enc_track_hdrs_from(ts, j + 1, body_pos + cmds_size(ts[j].commands))
    }
}

/// The concatenated command bodies of the tracks from index `j` on.
pub open spec fn enc_track_bodies_from(ts: Seq<TrackView>, j: int) -> Seq<u8>
    decreases ts.len() - j,
{
    if j < 0 || j >= ts.len() {
        Seq::empty()
    } else {
        enc_cmds(ts[j].commands) + enc_track_bodies_from(ts, j + 1)
    }
}

// -------------------------------------------------------------- subsegments

/// The fixed arities of the format: a track bank always carries 16 tracks,
/// an opaque block always 3 bytes.
pub open spec fn sub_wf(s: SubsegmentView) -> bool {
    match s {
        SubsegmentView::Tracks { tracks, .. } => tracks.len() == 16,
        SubsegmentView::Unknown { data, .. } => data.len() == 3,
    }
}

/// Size of a subsegment's record in the segment's record run.
pub open spec fn sub_record_size(s: SubsegmentView) -> int {
    match s {
        SubsegmentView::Tracks { .. } => 98,
        SubsegmentView::Unknown { .. } => 5,
    }
}

/// Total size of a subsegment's command bodies.
pub open spec fn sub_bodies_size(s: SubsegmentView) -> int {
    match s {
        SubsegmentView::Tracks { tracks, .. } => bodies_size_from(tracks, 0),
        SubsegmentView::Unknown { .. } => 0,
    }
}

/// A subsegment's record bytes; `bodies_pos` is the absolute position where
/// its first track body lies.
pub open spec fn enc_sub_record(s: SubsegmentView, bodies_pos: int) -> Seq<u8> {
    match s {
        SubsegmentView::Tracks { flags, tracks } => seq![1u8, flags] + enc_track_hdrs_from(
            tracks,
            0,
            bodies_pos,
        ),
        SubsegmentView::Unknown { flags, data } => seq![2u8, flags] + data,
    }
}

/// A subsegment's body bytes (empty for an opaque block).
pub open spec fn sub_bodies(s: SubsegmentView) -> Seq<u8> {
    match s {
        SubsegmentView::Tracks { tracks, .. } => enc_track_bodies_from(tracks, 0),
        SubsegmentView::Unknown { .. } => Seq::empty(),
    }
}

pub open spec fn sub_rests_ok(s: SubsegmentView) -> bool {
    match s {
        SubsegmentView::Tracks { tracks, .. } => forall|j: int|
            0 <= j < tracks.len() ==> cmds_rests_ok((#[trigger] tracks[j]).commands),
        SubsegmentView::Unknown { .. } => true,
    }
}

pub open spec fn sub_jumps_ok(s: SubsegmentView) -> bool {
    match s {
        SubsegmentView::Tracks { tracks, .. } => forall|j: int|
            0 <= j < tracks.len() ==> cmds_jumps_ok((#[trigger] tracks[j]).commands),
        SubsegmentView::Unknown { .. } => true,
    }
}

// ---------------------------------------------------------------- segments

pub open spec fn seg_wf(subs: Seq<SubsegmentView>) -> bool {
    forall|k: int| 0 <= k < subs.len() ==> sub_wf(#[trigger] subs[k])
}

pub open spec fn seg_rests_ok(subs: Seq<SubsegmentView>) -> bool {
    forall|k: int| 0 <= k < subs.len() ==> sub_rests_ok(#[trigger] subs[k])
}

pub open spec fn seg_jumps_ok(subs: Seq<SubsegmentView>) -> bool {
    forall|k: int| 0 <= k < subs.len() ==> sub_jumps_ok(#[trigger] subs[k])
}

/// Size of the record run from subsegment `k` on, terminator included.
pub open spec fn seg_records_size_from(subs: Seq<SubsegmentView>, k: int) -> int
    decreases subs.len() - k,
{
    if k < 0 || k >= subs.len() {
        1
    } else {
        sub_record_size(subs[k]) + seg_records_size_from(subs, k + 1)
    }
}

/// Size of the body region contributed by subsegments `k` on.
pub open spec fn seg_bodies_size_from(subs: Seq<SubsegmentView>, k: int) -> int
    decreases subs.len() - k,
{
    if k < 0 || k >= subs.len() {
        0
    } else {
        sub_bodies_size(subs[k]) + seg_bodies_size_from(subs, k + 1)
    }
}

/// Total encoded size of one segment.
pub open spec fn seg_size(subs: Seq<SubsegmentView>) -> int {
    seg_records_size_from(subs, 0) + seg_bodies_size_from(subs, 0)
}

/// The record run from subsegment `k` on, terminator included; `bodies_pos`
/// is the absolute position of subsegment `k`'s first body byte.
pub open spec fn enc_seg_records_from(subs: Seq<SubsegmentView>, k: int, bodies_pos: int) -> Seq<
    u8,
>
    decreases subs.len() - k,
{
    if k < 0 || k >= subs.len() {
        seq![0u8]
    } else {
        enc_sub_record(subs[k], bodies_pos) + enc_seg_records_from(
            subs,
            k + 1,
            bodies_pos + sub_bodies_size(subs[k]),
        )
    }
}

/// The body region from subsegment `k` on.
pub open spec fn enc_seg_bodies_from(subs: Seq<SubsegmentView>, k: int) -> Seq<u8>
    decreases subs.len() - k,
{
    if k < 0 || k >= subs.len() {
        Seq::empty()
    } else {
        sub_bodies(subs[k]) + enc_seg_bodies_from(subs, k + 1)
    }
}

/// The whole segment as laid out at absolute position `start`.
pub open spec fn enc_seg(subs: Seq<SubsegmentView>, start: int) -> Seq<u8> {
    enc_seg_records_from(subs, 0, start + seg_records_size_from(subs, 0))
        + enc_seg_bodies_from(subs, 0)
}

// -------------------------------------------------------------------- song

/// The fixed arities of a whole song: 4 segment slots, and every
/// subsegment well-formed.
pub open spec fn bgm_wf(b: BgmView) -> bool {
    &&& b.segments.len() == 4
    &&& forall|i: int|
        0 <= i < 4 ==> ((#[trigger] b.segments[i]) matches Some(subs) ==> seg_wf(subs))
}

/// An index that decodes back to itself: exactly 4 ASCII bytes.
pub open spec fn index_canonical(idx: Seq<u8>) -> bool {
    idx.len() == 4 && forall|i: int| 0 <= i < 4 ==> (#[trigger] idx[i]) < 128
}

/// The index field as written: right-padded with spaces to 4 bytes.
pub open spec fn index_padded(idx: Seq<u8>) -> Seq<u8> {
    idx + Seq::new((4 - idx.len()) as nat, |i: int| 32u8)
}

/// Round `pos` up to the next 4-byte boundary (no move when already there).
pub open spec fn align4(pos: int) -> int {
    if pos % 4 == 0 {
        pos
    } else {
        pos + (4 - pos % 4)
    }
}

/// The layout cursor before slot `i` is placed: the end of the header for
/// slot 0, then past each present segment in turn.
pub open spec fn slot_cursor(segs: Seq<Option<Seq<SubsegmentView>>>, i: int) -> int
    decreases i,
{
    if i <= 0 {
        HEADER_SIZE as int
    } else {
        match segs[i - 1] {
            None => slot_cursor(segs, i - 1),
            Some(subs) => align4(slot_cursor(segs, i - 1)) + seg_size(subs),
        }
    }
}

/// The pointer written for slot `i`: zero for an empty slot, otherwise the
/// aligned position where its segment starts.
pub open spec fn slot_ptr(segs: Seq<Option<Seq<SubsegmentView>>>, i: int) -> int {
    match segs[i] {
        None => 0,
        Some(subs) => align4(slot_cursor(segs, i)),
    }
}

/// Total size of the encoded song.
pub open spec fn total_size(segs: Seq<Option<Seq<SubsegmentView>>>) -> int {
    slot_cursor(segs, 4)
}

/// `n` zero padding bytes.
pub open spec fn zeros(n: int) -> Seq<u8> {
    Seq::new(n as nat, |i: int| 0u8)
}

/// Everything after the header: padding and segment bytes, slots `i` on.
pub open spec fn body_area_from(segs: Seq<Option<Seq<SubsegmentView>>>, i: int) -> Seq<u8>
    decreases segs.len() - i,
{
    if i < 0 || i >= segs.len() {
        Seq::empty()
    } else {
        match segs[i] {
            None => body_area_from(segs, i + 1),
            Some(subs) => zeros(align4(slot_cursor(segs, i)) - slot_cursor(segs, i)) + enc_seg(
                subs,
                align4(slot_cursor(segs, i)),
            ) + body_area_from(segs, i + 1),
        }
    }
}

/// The 24-byte header: signature, padded index, four slot pointers.
pub open spec fn header_bytes(b: BgmView) -> Seq<u8> {
    magic() + index_padded(b.index) + spec_u32_to_le_bytes(slot_ptr(b.segments, 0) as u32)
        + spec_u32_to_le_bytes(slot_ptr(b.segments, 1) as u32) + spec_u32_to_le_bytes(
        slot_ptr(b.segments, 2) as u32,
    ) + spec_u32_to_le_bytes(slot_ptr(b.segments, 3) as u32)
}

/// The full encoded form of a song.
pub open spec fn encode_bytes(b: BgmView) -> Seq<u8> {
    header_bytes(b) + body_area_from(b.segments, 0)
}

pub open spec fn bgm_rests_ok(b: BgmView) -> bool {
    forall|i: int|
        0 <= i < b.segments.len() ==> ((#[trigger] b.segments[i]) matches Some(subs)
            ==> seg_rests_ok(subs))
}

pub open spec fn bgm_jumps_ok(b: BgmView) -> bool {
    forall|i: int|
        0 <= i < b.segments.len() ==> ((#[trigger] b.segments[i]) matches Some(subs)
            ==> seg_jumps_ok(subs))
}

/// Exactly when encoding succeeds: the index fits its field, every command
/// is representable, and the laid-out song fits 32-bit pointers.
pub open spec fn encodable(b: BgmView) -> bool {
    &&& b.index.len() <= 4
    &&& bgm_rests_ok(b)
    &&& bgm_jumps_ok(b)
    &&& total_size(b.segments) <= u32::MAX
}

// ----------------------------------------------------------------- parsers

/// Parse one command body starting at `pos`: commands until a zero byte.
pub open spec fn parse_cmds(buf: Seq<u8>, pos: int) -> Result<(Seq<Command>, int), DecodeError>
    decreases buf.len() - pos,
{
    if pos < 0 || pos >= buf.len() {
        Err(DecodeError::UnexpectedEof)
    } else if buf[pos] == 0 {
        Ok((Seq::empty(), pos + 1))
    } else if buf[pos] == 1 {
        if pos + 4 <= buf.len() {
            match parse_cmds(buf, pos + 4) {
                Ok((rest, end)) => Ok(
                    (
                        seq![
                            Command::Note {
                                pitch: buf[pos + 1],
                                velocity: buf[pos + 2],
                                duration: buf[pos + 3],
                            },
                        ] + rest,
                        end,
                    ),
                ),
                Err(e) => Err(e),
            }
        } else {
            Err(DecodeError::UnexpectedEof)
        }
    } else if buf[pos] == 2 {
        if pos + 3 <= buf.len() {
            match parse_cmds(buf, pos + 3) {
                Ok((rest, end)) => Ok(
                    (
                        seq![
                            Command::Rest {
                                duration: spec_u16_from_le_bytes(
                                    buf.subrange(pos + 1, pos + 3),
                                ) as u32,
                            },
                        ] + rest,
                        end,
                    ),
                ),
                Err(e) => Err(e),
            }
        } else {
            Err(DecodeError::UnexpectedEof)
        }
    } else if buf[pos] == 3 {
        if pos + 5 <= buf.len() {
            let abs = spec_u32_from_le_bytes(buf.subrange(pos + 1, pos + 5));
            if abs < HEADER_SIZE {
                Err(DecodeError::OffsetOutOfBounds { offset: abs })
            } else {
                match parse_cmds(buf, pos + 5) {
                    Ok((rest, end)) => Ok(
                        (
                            seq![Command::Jump { target: (abs - HEADER_SIZE) as u32 }] + rest,
                            end,
                        ),
                    ),
                    Err(e) => Err(e),
                }
            }
        } else {
            Err(DecodeError::UnexpectedEof)
        }
    } else {
        Err(DecodeError::UnknownCommand { opcode: buf[pos], offset: pos as usize })
    }
}

/// Parse `count` track headers at `hpos`, following each body pointer.
pub open spec fn parse_tracks(buf: Seq<u8>, hpos: int, count: int) -> Result<
    Seq<TrackView>,
    DecodeError,
>
    decreases count,
{
    if count <= 0 {
        Ok(Seq::empty())
    } else {
        let flags = spec_u16_from_le_bytes(buf.subrange(hpos, hpos + 2));
        let ptr = spec_u32_from_le_bytes(buf.subrange(hpos + 2, hpos + 6));
        if ptr > buf.len() {
            Err(DecodeError::OffsetOutOfBounds { offset: ptr })
        } else {
            match parse_cmds(buf, ptr as int) {
                Err(e) => Err(e),
                Ok((cmds, _)) => match parse_tracks(buf, hpos + 6, count - 1) {
                    Err(e) => Err(e),
                    Ok(rest) => Ok(seq![TrackView { flags, commands: cmds }] + rest),
                },
            }
        }
    }
}

/// Parse a segment's record run starting at `pos`.
pub open spec fn parse_segment(buf: Seq<u8>, pos: int) -> Result<
    (Seq<SubsegmentView>, int),
    DecodeError,
>
    decreases buf.len() - pos,
{
    if pos < 0 || pos >= buf.len() {
        Err(DecodeError::UnexpectedEof)
    } else if buf[pos] == 0 {
        Ok((Seq::empty(), pos + 1))
    } else if buf[pos] == 1 {
        if pos + 98 <= buf.len() {
            match parse_tracks(buf, pos + 2, 16) {
                Err(e) => Err(e),
                Ok(tracks) => match parse_segment(buf, pos + 98) {
                    Err(e) => Err(e),
                    Ok((rest, end)) => Ok(
                        (
                            seq![SubsegmentView::Tracks { flags: buf[pos + 1], tracks }] + rest,
                            end,
                        ),
                    ),
                },
            }
        } else {
            Err(DecodeError::UnexpectedEof)
        }
    } else if buf[pos] == 2 {
        if pos + 5 <= buf.len() {
            match parse_segment(buf, pos + 5) {
                Err(e) => Err(e),
                Ok((rest, end)) => Ok(
                    (
                        seq![
                            SubsegmentView::Unknown {
                                flags: buf[pos + 1],
                                data: buf.subrange(pos + 2, pos + 5),
                            },
                        ] + rest,
                        end,
                    ),
                ),
            }
        } else {
            Err(DecodeError::UnexpectedEof)
        }
    } else {
        Err(DecodeError::UnknownCommand { opcode: buf[pos], offset: pos as usize })
    }
}

/// Read slot `i`'s pointer and parse its segment if present.
pub open spec fn parse_slot(buf: Seq<u8>, i: int) -> Result<
    Option<Seq<SubsegmentView>>,
    DecodeError,
> {
    let p = spec_u32_from_le_bytes(buf.subrange(8 + 4 * i, 12 + 4 * i));
    if p == 0 {
        Ok(None)
    } else if p > buf.len() {
        Err(DecodeError::OffsetOutOfBounds { offset: p })
    } else {
        match parse_segment(buf, p as int) {
            Err(e) => Err(e),
            Ok((subs, _)) => Ok(Some(subs)),
        }
    }
}

/// The whole decoder, as a function over byte sequences: signature gate
/// first, then the index, then the four slots in order.
pub open spec fn decode_spec(buf: Seq<u8>) -> Result<BgmView, DecodeError> {
    if buf.len() < 4 || buf.subrange(0, 4) != magic() {
        Err(DecodeError::BadMagic)
    } else if buf.len() < 8 || !(forall|i: int| 4 <= i < 8 ==> (#[trigger] buf[i]) < 128) {
        Err(DecodeError::InvalidIndex)
    } else if buf.len() < HEADER_SIZE as int {
        Err(DecodeError::UnexpectedEof)
    } else {
        match parse_slot(buf, 0) {
            Err(e) => Err(e),
            Ok(s0) => match parse_slot(buf, 1) {
                Err(e) => Err(e),
                Ok(s1) => match parse_slot(buf, 2) {
                    Err(e) => Err(e),
                    Ok(s2) => match parse_slot(buf, 3) {
                        Err(e) => Err(e),
                        Ok(s3) => Ok(
                            BgmView { index: buf.subrange(4, 8), segments: seq![s0, s1, s2, s3] },
                        ),
                    },
                },
            },
        }
    }
}

// ------------------------------------------------------------ size lemmas

/// Every command occupies `cmd_size` bytes on the wire.
pub proof fn lemma_enc_cmd_len(c: Command)
    ensures
        enc_cmd(c).len() == cmd_size(c),
{
    lemma_auto_spec_u16_to_from_le_bytes();
    lemma_auto_spec_u32_to_from_le_bytes();
}

/// A command body occupies `cmds_size_from` bytes, which is at least 1.
pub proof fn lemma_enc_cmds_len(cs: Seq<Command>, l: int)
    ensures
        enc_cmds_from(cs, l).len() == cmds_size_from(cs, l),
        cmds_size_from(cs, l) >= 1,
    decreases cs.len() - l,
{
    if l < 0 || l >= cs.len() {
    } else {
        lemma_enc_cmd_len(cs[l]);
        lemma_enc_cmds_len(cs, l + 1);
    }
}

/// Track headers are 6 bytes each; bodies sum to `bodies_size_from`.
pub proof fn lemma_enc_tracks_len(ts: Seq<TrackView>, j: int, body_pos: int)
    requires
        0 <= j <= ts.len(),
    ensures
        enc_track_hdrs_from(ts, j, body_pos).len() == 6 * (ts.len() - j),
        enc_track_bodies_from(ts, j).len() == bodies_size_from(ts, j),
        bodies_size_from(ts, j) >= 0,
    decreases ts.len() - j,
{
    lemma_auto_spec_u16_to_from_le_bytes();
    lemma_auto_spec_u32_to_from_le_bytes();
    if j < 0 || j >= ts.len() {
    } else {
        lemma_enc_cmds_len(ts[j].commands, 0);
        lemma_enc_tracks_len(ts, j + 1, body_pos + cmds_size(ts[j].commands));
    }
}

/// A well-formed subsegment's record and bodies have their stated sizes.
pub proof fn lemma_enc_sub_len(s: SubsegmentView, bodies_pos: int)
    requires
        sub_wf(s),
    ensures
        enc_sub_record(s, bodies_pos).len() == sub_record_size(s),
        sub_bodies(s).len() == sub_bodies_size(s),
        sub_bodies_size(s) >= 0,
{
    match s {
        SubsegmentView::Tracks { tracks, .. } => {
            lemma_enc_tracks_len(tracks, 0, bodies_pos);
        },
        SubsegmentView::Unknown { .. } => {},
    }
}

/// A well-formed segment's record run and body region have their stated
/// sizes.
pub proof fn lemma_enc_seg_parts_len(subs: Seq<SubsegmentView>, k: int, bodies_pos: int)
    requires
        seg_wf(subs),
    ensures
        enc_seg_records_from(subs, k, bodies_pos).len() == seg_records_size_from(subs, k),
        enc_seg_bodies_from(subs, k).len() == seg_bodies_size_from(subs, k),
        seg_records_size_from(subs, k) >= 1,
        seg_bodies_size_from(subs, k) >= 0,
    decreases subs.len() - k,
{
    if k < 0 || k >= subs.len() {
    } else {
        lemma_enc_sub_len(subs[k], bodies_pos);
        lemma_enc_seg_parts_len(subs, k + 1, bodies_pos + sub_bodies_size(subs[k]));
    }
}

/// A well-formed segment occupies exactly `seg_size` bytes.
pub proof fn lemma_enc_seg_len(subs: Seq<SubsegmentView>, start: int)
    requires
        seg_wf(subs),
    ensures
        enc_seg(subs, start).len() == seg_size(subs),
        seg_size(subs) >= 1,
{
    lemma_enc_seg_parts_len(subs, 0, start + seg_records_size_from(subs, 0));
}

/// Alignment moves a position forward by at most 3 bytes, onto a 4-byte
/// boundary.
pub proof fn lemma_align4(pos: int)
    ensures
        pos <= align4(pos) <= pos + 3,
        pos >= 0 ==> align4(pos) % 4 == 0,
{
}

/// The layout cursor never runs backwards, and each slot's segment lies
/// between its pointer and the cursor after it.
pub proof fn lemma_slot_cursor_bounds(segs: Seq<Option<Seq<SubsegmentView>>>, i: int)
    requires
        0 <= i <= segs.len(),
        segs.len() == 4,
        forall|k: int| 0 <= k < 4 ==> ((#[trigger] segs[k]) matches Some(subs) ==> seg_wf(subs)),
    ensures
        HEADER_SIZE as int <= slot_cursor(segs, i),
        slot_cursor(segs, i) <= slot_cursor(segs, 4),
    decreases 4 - i,
{
    lemma_cursor_low(segs, i);
    if i < 4 {
        lemma_slot_cursor_bounds(segs, i + 1);
        match segs[i] {
            None => {},
            Some(subs) => {
                lemma_align4(slot_cursor(segs, i));
                lemma_enc_seg_len(subs, align4(slot_cursor(segs, i)));
            },
        }
    }
}

/// The cursor starts at the header's end and only grows.
pub proof fn lemma_cursor_low(segs: Seq<Option<Seq<SubsegmentView>>>, i: int)
    requires
        forall|k: int|
            0 <= k < segs.len() ==> ((#[trigger] segs[k]) matches Some(subs) ==> seg_wf(subs)),
        i <= segs.len(),
    ensures
        HEADER_SIZE as int <= slot_cursor(segs, i),
    decreases i,
{
    if i > 0 {
        lemma_cursor_low(segs, i - 1);
        if 0 <= i - 1 < segs.len() {
            match segs[i - 1] {
                None => {},
                Some(subs) => {
                    lemma_align4(slot_cursor(segs, i - 1));
                    lemma_enc_seg_len(subs, align4(slot_cursor(segs, i - 1)));
                },
            }
        }
    }
}

} // verus!
