//! The decoder: bytes to [`Bgm`]. Every function is proved equal to the
//! corresponding parser of [`crate::wire`].

use vstd::prelude::*;
use vstd::bytes::{u16_from_le_bytes, u32_from_le_bytes};
use vstd::slice::{slice_index_get, slice_subrange};
use crate::cmd::Command;
use crate::wire::{parse_cmds, parse_tracks, parse_segment, parse_slot, decode_spec, magic, HEADER_SIZE};
use crate::{Bgm, BgmView, Segment, Subsegment, Track};

verus! {

/// Why a byte buffer was rejected. Each variant carries the context a
/// caller needs for a precise diagnostic.
#[derive(Clone, Copy, PartialEq, Eq, Debug)]
pub enum DecodeError {
    /// The first 4 bytes are not the signature (or the buffer is shorter
    /// than the signature).
    BadMagic,
    /// The 4-byte index field is missing or holds a non-ASCII byte.
    InvalidIndex,
    /// An internal pointer led outside the buffer, or a jump offset lay
    /// below the command-data region's base.
    OffsetOutOfBounds { offset: u32 },
    /// A structure's declared length would read past the buffer's end.
    UnexpectedEof,
    /// An unrecognized discriminant byte; skipping it would desynchronize
    /// every later offset, so it is reported instead.
    UnknownCommand { opcode: u8, offset: usize },
}

/// A decoded song or the decode error, lifted to the model level.
pub open spec fn ok_view(r: Result<Bgm, DecodeError>) -> Result<BgmView, DecodeError> {
    match r {
        Ok(b) => Ok(b@),
        Err(e) => Err(e),
    }
}

/// Prefix a parsed command run onto a parser outcome.
pub open spec fn prepend_cmds(
    pre: Seq<Command>,
    r: Result<(Seq<Command>, int), DecodeError>,
) -> Result<(Seq<Command>, int), DecodeError> {
    match r {
        Ok((cs, end)) => Ok((pre + cs, end)),
        Err(e) => Err(e),
    }
}

/// Parse one command body at `pos`: commands up to and including the zero
/// terminator.
fn parse_cmds_exec(buf: &[u8], pos0: usize) -> (r: Result<(Vec<Command>, usize), DecodeError>)
    ensures
        match r {
            Ok((cs, end)) => parse_cmds(buf@, pos0 as int) == Ok::<_, DecodeError>(
                (cs@, end as int),
            ) && end <= buf@.len(),
            Err(e) => parse_cmds(buf@, pos0 as int) == Err::<(Seq<Command>, int), _>(e),
        },
{
    let mut acc: Vec<Command> = Vec::new();
    let mut pos = pos0;
    proof {
        match parse_cmds(buf@, pos0 as int) {
            Ok((cs, e)) => {
                assert(Seq::<Command>::empty() + cs =~= cs);
            },
            Err(_) => {},
        }
    }
    loop
        invariant
            pos0 <= pos,
            parse_cmds(buf@, pos0 as int) == prepend_cmds(acc@, parse_cmds(buf@, pos as int)),
        decreases buf@.len() - pos,
    {
        if pos >= buf.len() {
            return Err(DecodeError::UnexpectedEof);
        }
        let op = *slice_index_get(buf, pos);
        if op == 0 {
            assert(parse_cmds(buf@, pos as int) == Ok::<_, DecodeError>(
                (Seq::<Command>::empty(), pos + 1),
            ));
            assert(acc@ + Seq::<Command>::empty() =~= acc@);
            return Ok((acc, pos + 1));
        } else if op == 1 {
            if buf.len() - pos < 4 {
                return Err(DecodeError::UnexpectedEof);
            }
            let c = Command::Note {
                pitch: *slice_index_get(buf, pos + 1),
                velocity: *slice_index_get(buf, pos + 2),
                duration: *slice_index_get(buf, pos + 3),
            };
            proof {
                lemma_step(buf@, pos0 as int, pos as int, acc@, c, 4);
            }
            acc.push(c);
            pos = pos + 4;
        } else if op == 2 {
            if buf.len() - pos < 3 {
                return Err(DecodeError::UnexpectedEof);
            }
            let dur = u16_from_le_bytes(slice_subrange(buf, pos + 1, pos + 3));
            let c = Command::Rest { duration: dur as u32 };
            proof {
                lemma_step(buf@, pos0 as int, pos as int, acc@, c, 3);
            }
            acc.push(c);
            pos = pos + 3;
        } else if op == 3 {
            if buf.len() - pos < 5 {
                return Err(DecodeError::UnexpectedEof);
            }
            let abs = u32_from_le_bytes(slice_subrange(buf, pos + 1, pos + 5));
            if abs < HEADER_SIZE {
                return Err(DecodeError::OffsetOutOfBounds { offset: abs });
            }
            let c = Command::Jump { target: abs - HEADER_SIZE };
            proof {
                lemma_step(buf@, pos0 as int, pos as int, acc@, c, 5);
            }
            acc.push(c);
            pos = pos + 5;
        } else {
            return Err(DecodeError::UnknownCommand { opcode: op, offset: pos });
        }
    }
}

/// One unfolding of `parse_cmds`: reading command `c` of size `sz` at `pos`
/// extends the accumulated prefix.
proof fn lemma_step(buf: Seq<u8>, pos0: int, pos: int, acc: Seq<Command>, c: Command, sz: int)
    requires
        parse_cmds(buf, pos0) == prepend_cmds(acc, parse_cmds(buf, pos)),
        parse_cmds(buf, pos) == prepend_cmds(seq![c], parse_cmds(buf, pos + sz)),
    ensures
        parse_cmds(buf, pos0) == prepend_cmds(acc.push(c), parse_cmds(buf, pos + sz)),
{
    match parse_cmds(buf, pos + sz) {
        Ok((cs, end)) => {
            assert(acc + (seq![c] + cs) =~= acc.push(c) + cs);
        },
        Err(e) => {},
    }
}

/// Parse the 16 track headers of a track bank and the command body each
/// one points to.
fn parse_tracks_exec(buf: &[u8], hpos0: usize) -> (r: Result<Vec<Track>, DecodeError>)
    requires
        hpos0 + 96 <= buf@.len(),
    ensures
        match r {
            Ok(ts) => parse_tracks(buf@, hpos0 as int, 16) == Ok::<_, DecodeError>(
                ts@.map(|i: int, t: Track| t@),
            ) && ts@.len() == 16,
            Err(e) => parse_tracks(buf@, hpos0 as int, 16) == Err::<Seq<crate::TrackView>, _>(e),
        },
{
    let n = buf.len();
    let mut ts: Vec<Track> = Vec::new();
    let mut j: usize = 0;
    proof {
        assert(ts@.map(|i: int, t: Track| t@) =~= Seq::<crate::TrackView>::empty());
        match parse_tracks(buf@, hpos0 as int, 16) {
            Ok(x) => {
                assert(Seq::<crate::TrackView>::empty() + x =~= x);
            },
            Err(_) => {},
        }
    }
    while j < 16
        invariant
            0 <= j <= 16,
            ts@.len() == j,
            buf@.len() == n,
            hpos0 + 96 <= buf@.len(),
            parse_tracks(buf@, hpos0 as int, 16) == prepend_tracks(
                ts@.map(|i: int, t: Track| t@),
                parse_tracks(buf@, hpos0 + 6 * j, 16 - j),
            ),
        decreases 16 - j,
    {
        let hpos = hpos0 + 6 * j;
        let flags = u16_from_le_bytes(slice_subrange(buf, hpos, hpos + 2));
        let ptr = u32_from_le_bytes(slice_subrange(buf, hpos + 2, hpos + 6));
        if ptr as usize > buf.len() {
            return Err(DecodeError::OffsetOutOfBounds { offset: ptr });
        }
        let cmds = match parse_cmds_exec(buf, ptr as usize) {
            Ok((cs, _)) => cs,
            Err(e) => {
                return Err(e);
            },
        };
        let t = Track { flags, commands: cmds };
        proof {
            let m = ts@.map(|i: int, t: Track| t@);
            match parse_tracks(buf@, hpos0 + 6 * (j + 1), 16 - (j + 1)) {
                Ok(rest) => {
                    assert(m + (seq![t@] + rest) =~= m.push(t@) + rest);
                },
                Err(_) => {},
            }
            assert(ts@.push(t).map(|i: int, t: Track| t@) =~= ts@.map(|i: int, t: Track| t@).push(
                t@,
            ));
        }
        ts.push(t);
        j = j + 1;
    }
    proof {
        let m = ts@.map(|i: int, t: Track| t@);
        assert(parse_tracks(buf@, hpos0 + 96, 0) == Ok::<_, DecodeError>(
            Seq::<crate::TrackView>::empty(),
        ));
        assert(m + Seq::<crate::TrackView>::empty() =~= m);
    }
    Ok(ts)
}

/// Prefix parsed tracks onto a track-parser outcome.
pub open spec fn prepend_tracks(
    pre: Seq<crate::TrackView>,
    r: Result<Seq<crate::TrackView>, DecodeError>,
) -> Result<Seq<crate::TrackView>, DecodeError> {
    match r {
        Ok(ts) => Ok(pre + ts),
        Err(e) => Err(e),
    }
}

/// Prefix parsed subsegments onto a segment-parser outcome.
pub open spec fn prepend_subs(
    pre: Seq<crate::SubsegmentView>,
    r: Result<(Seq<crate::SubsegmentView>, int), DecodeError>,
) -> Result<(Seq<crate::SubsegmentView>, int), DecodeError> {
    match r {
        Ok((subs, end)) => Ok((pre + subs, end)),
        Err(e) => Err(e),
    }
}

/// Parse one segment's record run at `pos0`.
fn parse_segment_exec(buf: &[u8], pos0: usize) -> (r: Result<Segment, DecodeError>)
    ensures
        match r {
            Ok(subs) => parse_segment(buf@, pos0 as int) matches Ok(p) && p.0 == crate::seg_view(
                subs,
            ),
            Err(e) => parse_segment(buf@, pos0 as int) == Err::<(Seq<crate::SubsegmentView>, int), _>(e),
        },
{
    let mut acc: Segment = Vec::new();
    let mut pos = pos0;
    proof {
        assert(crate::seg_view(acc) =~= Seq::<crate::SubsegmentView>::empty());
        match parse_segment(buf@, pos0 as int) {
            Ok((x, e)) => {
                assert(Seq::<crate::SubsegmentView>::empty() + x =~= x);
            },
            Err(_) => {},
        }
    }
    loop
        invariant
            pos0 <= pos,
            parse_segment(buf@, pos0 as int) == prepend_subs(
                crate::seg_view(acc),
                parse_segment(buf@, pos as int),
            ),
        decreases buf@.len() - pos,
    {
        if pos >= buf.len() {
            return Err(DecodeError::UnexpectedEof);
        }
        let tag = *slice_index_get(buf, pos);
        if tag == 0 {
            proof {
                assert(crate::seg_view(acc) + Seq::<crate::SubsegmentView>::empty() =~= crate::seg_view(
                    acc,
                ));
            }
            return Ok(acc);
        } else if tag == 1 {
            if buf.len() - pos < 98 {
                return Err(DecodeError::UnexpectedEof);
            }
            let flags = *slice_index_get(buf, pos + 1);
            let tracks_vec = match parse_tracks_exec(buf, pos + 2) {
                Ok(ts) => ts,
                Err(e) => {
                    return Err(e);
                },
            };
            let sub = tracks_vec_to_sub(flags, tracks_vec);
            proof {
                lemma_seg_step(buf@, pos0 as int, pos as int, acc@, sub, 98);
            }
            acc.push(sub);
            pos = pos + 98;
        } else if tag == 2 {
            if buf.len() - pos < 5 {
                return Err(DecodeError::UnexpectedEof);
            }
            let flags = *slice_index_get(buf, pos + 1);
            let data = [
                *slice_index_get(buf, pos + 2),
                *slice_index_get(buf, pos + 3),
                *slice_index_get(buf, pos + 4),
            ];
            let sub = Subsegment::Unknown { flags, data };
            proof {
                assert(data@ =~= buf@.subrange(pos + 2, pos + 5));
                lemma_seg_step(buf@, pos0 as int, pos as int, acc@, sub, 5);
            }
            acc.push(sub);
            pos = pos + 5;
        } else {
            return Err(DecodeError::UnknownCommand { opcode: tag, offset: pos });
        }
    }
}

/// One unfolding of `parse_segment`: reading subsegment `sub` of record
/// size `sz` at `pos` extends the accumulated prefix.
proof fn lemma_seg_step(
    buf: Seq<u8>,
    pos0: int,
    pos: int,
    acc: Seq<Subsegment>,
    sub: Subsegment,
    sz: int,
)
    requires
        parse_segment(buf, pos0) == prepend_subs(
            acc.map(|i: int, s: Subsegment| s@),
            parse_segment(buf, pos),
        ),
        parse_segment(buf, pos) == prepend_subs(seq![sub@], parse_segment(buf, pos + sz)),
    ensures
        parse_segment(buf, pos0) == prepend_subs(
            acc.push(sub).map(|i: int, s: Subsegment| s@),
            parse_segment(buf, pos + sz),
        ),
{
    let m = acc.map(|i: int, s: Subsegment| s@);
    assert(acc.push(sub).map(|i: int, s: Subsegment| s@) =~= m.push(sub@));
    match parse_segment(buf, pos + sz) {
        Ok((subs, end)) => {
            assert(m + (seq![sub@] + subs) =~= m.push(sub@) + subs);
        },
        Err(e) => {},
    }
}

/// Build a track-bank subsegment from a vector of exactly 16 tracks.
fn tracks_vec_to_sub(flags: u8, mut ts: Vec<Track>) -> (sub: Subsegment)
    requires
        ts@.len() == 16,
    ensures
        sub@ == (crate::SubsegmentView::Tracks {
            flags,
            tracks: ts@.map(|i: int, t: Track| t@),
        }),
{
    let ghost orig = ts@;
    let t15 = ts.pop().unwrap();
    let t14 = ts.pop().unwrap();
    let t13 = ts.pop().unwrap();
    let t12 = ts.pop().unwrap();
    let t11 = ts.pop().unwrap();
    let t10 = ts.pop().unwrap();
    let t9 = ts.pop().unwrap();
    let t8 = ts.pop().unwrap();
    let t7 = ts.pop().unwrap();
    let t6 = ts.pop().unwrap();
    let t5 = ts.pop().unwrap();
    let t4 = ts.pop().unwrap();
    let t3 = ts.pop().unwrap();
    let t2 = ts.pop().unwrap();
    let t1 = ts.pop().unwrap();
    let t0 = ts.pop().unwrap();
    let tracks = [t0, t1, t2, t3, t4, t5, t6, t7, t8, t9, t10, t11, t12, t13, t14, t15];
    let sub = Subsegment::Tracks { flags, tracks };
    proof {
        assert(tracks@.map(|i: int, t: Track| t@) =~= orig.map(|i: int, t: Track| t@));
    }
    sub
}

/// Decode a byte buffer into a song.
///
/// The result equals `wire::decode_spec` on the buffer's contents: on
/// success the returned song's model is exactly what the parser yields, and
/// on failure the error is exactly the parser's error, so the signature
/// gate, the index rule, and every offset and arity check of the format are
/// pinned down by the parser's definition.
pub fn decode(bytes: &[u8]) -> (r: Result<Bgm, DecodeError>)
    ensures
        ok_view(r) == decode_spec(bytes@),
{
    if bytes.len() < 4 {
        return Err(DecodeError::BadMagic);
    }
    let m0 = *slice_index_get(bytes, 0);
    let m1 = *slice_index_get(bytes, 1);
    let m2 = *slice_index_get(bytes, 2);
    let m3 = *slice_index_get(bytes, 3);
    if !(m0 == 66 && m1 == 71 && m2 == 77 && m3 == 32) {
        proof {
            assert(bytes@.subrange(0, 4) != magic());
        }
        return Err(DecodeError::BadMagic);
    }
    proof {
        assert(bytes@.subrange(0, 4) =~= magic());
    }
    if bytes.len() < 8 {
        return Err(DecodeError::InvalidIndex);
    }
    let mut index: Vec<u8> = Vec::new();
    let mut i: usize = 4;
    while i < 8
        invariant
            4 <= i <= 8,
            bytes@.len() >= 8,
            bytes@.subrange(0, 4) == magic(),
            index@ =~= bytes@.subrange(4, i as int),
            forall|k: int| 4 <= k < i ==> (#[trigger] bytes@[k]) < 128,
        decreases 8 - i,
    {
        let b = *slice_index_get(bytes, i);
        if b >= 128 {
            proof {
                let w = i as int;
                assert(4 <= w < 8 && bytes@[w] >= 128);
                assert(!(forall|k: int| 4 <= k < 8 ==> (#[trigger] bytes@[k]) < 128));
            }
            return Err(DecodeError::InvalidIndex);
        }
        index.push(b);
        i = i + 1;
    }
    if bytes.len() < 24 {
        return Err(DecodeError::UnexpectedEof);
    }
    let s0 = match parse_slot_exec(bytes, 0) {
        Ok(s) => s,
        Err(e) => {
            return Err(e);
        },
    };
    let s1 = match parse_slot_exec(bytes, 1) {
        Ok(s) => s,
        Err(e) => {
            return Err(e);
        },
    };
    let s2 = match parse_slot_exec(bytes, 2) {
        Ok(s) => s,
        Err(e) => {
            return Err(e);
        },
    };
    let s3 = match parse_slot_exec(bytes, 3) {
        Ok(s) => s,
        Err(e) => {
            return Err(e);
        },
    };
    let b = Bgm { index, segments: [s0, s1, s2, s3] };
    proof {
        let spec_b = decode_spec(bytes@)->Ok_0;
        assert(b@.index =~= spec_b.index);
        assert(b@.segments =~= spec_b.segments);
    }
    Ok(b)
}

/// Read slot `i`'s pointer from the header and parse its segment.
fn parse_slot_exec(buf: &[u8], i: usize) -> (r: Result<Option<Segment>, DecodeError>)
    requires
        i < 4,
        buf@.len() >= 24,
    ensures
        match r {
            Ok(s) => parse_slot(buf@, i as int) == Ok::<_, DecodeError>(
                match s {
                    Some(seg) => Some(crate::seg_view(seg)),
                    None => None,
                },
            ),
            Err(e) => parse_slot(buf@, i as int) == Err::<Option<Seq<crate::SubsegmentView>>, _>(
                e,
            ),
        },
{
    let p = u32_from_le_bytes(slice_subrange(buf, 8 + 4 * i, 12 + 4 * i));
    if p == 0 {
        return Ok(None);
    }
    if p as usize > buf.len() {
        return Err(DecodeError::OffsetOutOfBounds { offset: p });
    }
    match parse_segment_exec(buf, p as usize) {
        Ok(seg) => Ok(Some(seg)),
        Err(e) => Err(e),
    }
}

} // verus!
