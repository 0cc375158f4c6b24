//! The guarantees that relate the codec's pieces, each stated as a public
//! proof function over the models in [`crate::wire`].

use vstd::prelude::*;
use vstd::bytes::{
    lemma_auto_spec_u16_to_from_le_bytes, lemma_auto_spec_u32_to_from_le_bytes,
    spec_u16_to_le_bytes, spec_u32_to_le_bytes, spec_u32_from_le_bytes,
};
use crate::cmd::Command;
use crate::wire::{
    align4, bgm_jumps_ok, bgm_rests_ok, bgm_wf, bodies_size_from, body_area_from, cmd_size,
    cmds_jumps_ok, cmds_rests_ok, cmds_size, cmds_size_from, decode_spec, enc_cmd, enc_cmds,
    enc_cmds_from, enc_seg, enc_seg_bodies_from, enc_seg_records_from, enc_sub_record,
    enc_track_bodies_from, enc_track_hdrs_from, encodable, encode_bytes, header_bytes,
    index_canonical, index_padded, jump_ok, lemma_align4, lemma_cursor_low, lemma_enc_cmds_len,
    lemma_enc_seg_len, lemma_enc_seg_parts_len, lemma_enc_sub_len, lemma_enc_tracks_len,
    lemma_slot_cursor_bounds, magic, parse_cmds, parse_segment, parse_slot, parse_tracks,
    rest_ok, seg_bodies_size_from, seg_jumps_ok, seg_records_size_from, seg_rests_ok, seg_size,
    seg_wf, slot_cursor, slot_ptr, sub_bodies, sub_bodies_size, sub_jumps_ok, sub_record_size,
    sub_rests_ok, sub_wf, total_size, zeros, HEADER_SIZE,
};
use crate::de::DecodeError;
use crate::spec_align;
use crate::{Bgm, BgmView, Segment, SubsegmentView, TrackView};

verus! {

/// Fixed-arity law: any song value the library can hold — in particular any
/// song `decode` returns — has exactly 4 segment slots, 16 tracks in every
/// track bank, and 3 payload bytes in every opaque block. The arities are
/// carried by the types themselves, so a value violating them cannot even
/// be constructed for the encoder to accept.
pub proof fn lemma_fixed_arities(b: Bgm)
    ensures
        bgm_wf(b@),
        b@.segments.len() == 4,
{
    assert forall|i: int| 0 <= i < 4 implies ((#[trigger] b@.segments[i]) matches Some(subs)
        ==> seg_wf(subs)) by {
        match b.segments@[i] {
            Some(seg) => {
                lemma_seg_view_wf(seg);
                assert(b@.segments[i] == Some(crate::seg_view(seg)));
            },
            None => {},
        }
    }
}

/// Every segment value's model is well-formed: the fixed arities hold of
/// each of its subsegments, by construction of the types.
pub proof fn lemma_seg_view_wf(seg: Segment)
    ensures
        seg_wf(crate::seg_view(seg)),
{
    assert forall|k: int| 0 <= k < crate::seg_view(seg).len() implies sub_wf(
        #[trigger] crate::seg_view(seg)[k],
    ) by {
        match seg@[k] {
            crate::Subsegment::Tracks { flags, tracks } => {
                assert(tracks@.len() == 16);
            },
            crate::Subsegment::Unknown { flags, data } => {
                assert(data@.len() == 3);
            },
        }
    }
}

/// Signature gate: a buffer whose first 4 bytes are not the signature — in
/// particular any buffer shorter than 4 bytes — always decodes to
/// `BadMagic`, whatever its remaining bytes hold.
pub proof fn lemma_signature_gate(buf: Seq<u8>)
    requires
        buf.len() < 4 || buf.subrange(0, 4) != magic(),
    ensures
        decode_spec(buf) == Err::<BgmView, DecodeError>(DecodeError::BadMagic),
{
}

/// Alignment is a no-op for units 0 and 1.
pub proof fn lemma_align_unit(v: u32)
    ensures
        spec_align(v as int, 0) == v,
        spec_align(v as int, 1) == v,
{
}

/// Alignment idempotence: re-aligning an aligned value changes nothing.
/// For a unit above 1 this holds exactly when the first alignment lands on
/// the unit itself, i.e. when the value is a multiple of the unit or no
/// larger than it; a value strictly between two larger multiples aligns to
/// the upper one, which the format's deliberate advance-on-multiple rule
/// then maps back down to the unit.
pub proof fn lemma_align_idempotent(v: u32, n: u32)
    requires
        n > 1,
        v % n == 0 || v <= n,
    ensures
        spec_align(spec_align(v as int, n as int), n as int) == spec_align(v as int, n as int),
{
    vstd::arithmetic::div_mod::lemma_mod_self_0(n as int);
    let a = spec_align(v as int, n as int);
    if v % n == 0 {
        assert(a == n);
    } else {
        assert(v < n);
        assert(v % n == v) by {
            vstd::arithmetic::div_mod::lemma_small_mod(v as nat, n as nat);
        }
        assert(a == n);
    }
}


/// One byte of a sequence placed in a buffer at `pos`.
proof fn lemma_bytes_at(buf: Seq<u8>, pos: int, s: Seq<u8>, x: int)
    requires
        0 <= pos,
        pos + s.len() <= buf.len(),
        buf.subrange(pos, pos + s.len()) == s,
        0 <= x < s.len(),
    ensures
        buf[pos + x] == s[x],
{
    assert(buf.subrange(pos, pos + s.len())[x] == buf[pos + x]);
}

/// A window of a sequence placed in a buffer at `pos`.
proof fn lemma_sub_at(buf: Seq<u8>, pos: int, s: Seq<u8>, x: int, y: int)
    requires
        0 <= pos,
        pos + s.len() <= buf.len(),
        buf.subrange(pos, pos + s.len()) == s,
        0 <= x <= y <= s.len(),
    ensures
        buf.subrange(pos + x, pos + y) == s.subrange(x, y),
{
    assert(buf.subrange(pos + x, pos + y) =~= s.subrange(x, y)) by {
        assert forall|k: int| 0 <= k < y - x implies buf.subrange(pos + x, pos + y)[k]
            == s.subrange(x, y)[k] by {
            assert(buf.subrange(pos, pos + s.len())[x + k] == buf[pos + x + k]);
            assert(buf.subrange(pos + x, pos + y)[k] == buf[pos + x + k]);
        }
    }
}

/// A command body placed in a buffer parses back to exactly the commands it
/// encodes, consuming exactly its own bytes.
proof fn lemma_parse_cmds_embed(buf: Seq<u8>, cs: Seq<Command>, l: int, pos: int)
    requires
        cmds_rests_ok(cs),
        cmds_jumps_ok(cs),
        0 <= l <= cs.len(),
        0 <= pos,
        pos + cmds_size_from(cs, l) <= buf.len(),
        buf.subrange(pos, pos + cmds_size_from(cs, l)) == enc_cmds_from(cs, l),
    ensures
        parse_cmds(buf, pos) == Ok::<_, DecodeError>((cs.skip(l), pos + cmds_size_from(cs, l))),
    decreases cs.len() - l,
{
    lemma_auto_spec_u16_to_from_le_bytes();
    lemma_auto_spec_u32_to_from_le_bytes();
    lemma_enc_cmds_len(cs, l);
    let ec = enc_cmds_from(cs, l);
    let sz_all = cmds_size_from(cs, l);
    if l == cs.len() {
        assert(ec == seq![0u8]);
        lemma_bytes_at(buf, pos, ec, 0);
        assert(buf[pos] == 0);
        assert(cs.skip(l) =~= Seq::<Command>::empty());
    } else {
        let c = cs[l];
        assert(rest_ok(c) && jump_ok(c));
        let sz = cmd_size(c);
        lemma_enc_cmd_len(c);
        lemma_enc_cmds_len(cs, l + 1);
        assert(ec == enc_cmd(c) + enc_cmds_from(cs, l + 1));
        lemma_bytes_at(buf, pos, ec, 0);
        assert(buf[pos] == enc_cmd(c)[0]);
        lemma_sub_at(buf, pos, ec, sz, sz_all);
        assert(ec.subrange(sz, sz_all) =~= enc_cmds_from(cs, l + 1));
        lemma_parse_cmds_embed(buf, cs, l + 1, pos + sz);
        assert(seq![c] + cs.skip(l + 1) =~= cs.skip(l));
        match c {
            Command::Note { pitch, velocity, duration } => {
                assert(enc_cmd(c) == seq![1u8, pitch, velocity, duration]);
                assert(buf[pos] == 1);
                lemma_bytes_at(buf, pos, ec, 1);
                lemma_bytes_at(buf, pos, ec, 2);
                lemma_bytes_at(buf, pos, ec, 3);
                assert(buf[pos + 1] == pitch && buf[pos + 2] == velocity && buf[pos + 3]
                    == duration);
            },
            Command::Rest { duration } => {
                assert(buf[pos] == 2);
                lemma_sub_at(buf, pos, ec, 1, 3);
                assert(ec.subrange(1, 3) =~= spec_u16_to_le_bytes(duration as u16));
                assert(vstd::bytes::spec_u16_from_le_bytes(buf.subrange(pos + 1, pos + 3))
                    == duration as u16);
                assert((duration as u16) as u32 == duration);
            },
            Command::Jump { target } => {
                assert(buf[pos] == 3);
                lemma_sub_at(buf, pos, ec, 1, 5);
                assert(ec.subrange(1, 5) =~= spec_u32_to_le_bytes((target + HEADER_SIZE) as u32));
                let abs = spec_u32_from_le_bytes(buf.subrange(pos + 1, pos + 5));
                assert(abs == (target + HEADER_SIZE) as u32);
                assert(abs >= HEADER_SIZE);
                assert((abs - HEADER_SIZE) as u32 == target);
            },
        }
    }
}

/// `enc_cmd` has length `cmd_size` (restated here for direct use).
proof fn lemma_enc_cmd_len(c: Command)
    ensures
        enc_cmd(c).len() == cmd_size(c),
{
    lemma_auto_spec_u16_to_from_le_bytes();
    lemma_auto_spec_u32_to_from_le_bytes();
}

/// Track headers and bodies placed in a buffer parse back to exactly the
/// tracks they encode.
proof fn lemma_parse_tracks_embed(buf: Seq<u8>, tv: Seq<TrackView>, j: int, hpos: int, bp: int)
    requires
        tv.len() == 16,
        0 <= j <= 16,
        forall|x: int| 0 <= x < 16 ==> cmds_rests_ok((#[trigger] tv[x]).commands),
        forall|x: int| 0 <= x < 16 ==> cmds_jumps_ok((#[trigger] tv[x]).commands),
        0 <= hpos,
        hpos + 6 * (16 - j) <= buf.len(),
        buf.subrange(hpos, hpos + 6 * (16 - j)) == enc_track_hdrs_from(tv, j, bp),
        0 <= bp,
        bp + bodies_size_from(tv, j) <= buf.len(),
        bp + bodies_size_from(tv, j) <= u32::MAX + 1,
        buf.subrange(bp, bp + bodies_size_from(tv, j)) == enc_track_bodies_from(tv, j),
    ensures
        parse_tracks(buf, hpos, 16 - j) == Ok::<_, DecodeError>(tv.skip(j)),
    decreases 16 - j,
{
    lemma_auto_spec_u16_to_from_le_bytes();
    lemma_auto_spec_u32_to_from_le_bytes();
    if j == 16 {
        assert(tv.skip(16) =~= Seq::<TrackView>::empty());
    } else {
        let t = tv[j];
        let csz = cmds_size(t.commands);
        lemma_enc_cmds_len(t.commands, 0);
        lemma_enc_tracks_len(tv, j + 1, bp + csz);
        lemma_enc_tracks_len(tv, j, bp);
        crate::en::lemma_tracks_tail(tv, j + 1);
        crate::en::lemma_tracks_tail(tv, j);
        let hd = enc_track_hdrs_from(tv, j, bp);
        let bd = enc_track_bodies_from(tv, j);
        assert(hd == spec_u16_to_le_bytes(t.flags) + spec_u32_to_le_bytes(bp as u32)
            + enc_track_hdrs_from(tv, j + 1, bp + csz));
        assert(bd == enc_cmds(t.commands) + enc_track_bodies_from(tv, j + 1));
        lemma_sub_at(buf, hpos, hd, 0, 2);
        assert(hd.subrange(0, 2) =~= spec_u16_to_le_bytes(t.flags));
        assert(buf.subrange(hpos, hpos + 2) =~= spec_u16_to_le_bytes(t.flags));
        lemma_sub_at(buf, hpos, hd, 2, 6);
        assert(hd.subrange(2, 6) =~= spec_u32_to_le_bytes(bp as u32));
        assert(buf.subrange(hpos + 2, hpos + 6) =~= spec_u32_to_le_bytes(bp as u32));
        let flags = vstd::bytes::spec_u16_from_le_bytes(buf.subrange(hpos, hpos + 2));
        let ptr = spec_u32_from_le_bytes(buf.subrange(hpos + 2, hpos + 6));
        assert(flags == t.flags);
        assert(ptr == bp as u32);
        assert(ptr <= buf.len());
        lemma_sub_at(buf, bp, bd, 0, csz);
        assert(bd.subrange(0, csz) =~= enc_cmds_from(t.commands, 0));
        assert(buf.subrange(bp, bp + csz) =~= enc_cmds_from(t.commands, 0));
        lemma_parse_cmds_embed(buf, t.commands, 0, bp);
        assert(t.commands.skip(0) =~= t.commands);
        lemma_sub_at(buf, hpos, hd, 6, 6 * (16 - j));
        assert(hd.subrange(6, 6 * (16 - j)) =~= enc_track_hdrs_from(tv, j + 1, bp + csz));
        assert(buf.subrange(hpos + 6, hpos + 6 + 6 * (16 - (j + 1))) =~= enc_track_hdrs_from(
            tv,
            j + 1,
            bp + csz,
        ));
        lemma_sub_at(buf, bp, bd, csz, bodies_size_from(tv, j));
        assert(bd.subrange(csz, bodies_size_from(tv, j)) =~= enc_track_bodies_from(tv, j + 1));
        assert(buf.subrange(bp + csz, bp + csz + bodies_size_from(tv, j + 1))
            =~= enc_track_bodies_from(tv, j + 1));
        lemma_parse_tracks_embed(buf, tv, j + 1, hpos + 6, bp + csz);
        assert(TrackView { flags, commands: t.commands } == t);
        assert(seq![t] + tv.skip(j + 1) =~= tv.skip(j));
    }
}

/// A segment's record run and body region placed in a buffer parse back to
/// exactly the subsegments they encode.
proof fn lemma_parse_segment_embed(
    buf: Seq<u8>,
    subs: Seq<SubsegmentView>,
    k: int,
    rpos: int,
    bp: int,
)
    requires
        seg_wf(subs),
        seg_rests_ok(subs),
        seg_jumps_ok(subs),
        0 <= k <= subs.len(),
        0 <= rpos,
        rpos + seg_records_size_from(subs, k) <= buf.len(),
        buf.subrange(rpos, rpos + seg_records_size_from(subs, k)) == enc_seg_records_from(
            subs,
            k,
            bp,
        ),
        0 <= bp,
        bp + seg_bodies_size_from(subs, k) <= buf.len(),
        bp + seg_bodies_size_from(subs, k) <= u32::MAX + 1,
        buf.subrange(bp, bp + seg_bodies_size_from(subs, k)) == enc_seg_bodies_from(subs, k),
    ensures
        parse_segment(buf, rpos) == Ok::<_, DecodeError>(
            (subs.skip(k), rpos + seg_records_size_from(subs, k)),
        ),
    decreases subs.len() - k,
{
    lemma_enc_seg_parts_len(subs, k, bp);
    let rsz = seg_records_size_from(subs, k);
    let bsz = seg_bodies_size_from(subs, k);
    let er = enc_seg_records_from(subs, k, bp);
    let eb = enc_seg_bodies_from(subs, k);
    if k == subs.len() {
        assert(er == seq![0u8]);
        lemma_bytes_at(buf, rpos, er, 0);
        assert(buf[rpos] == 0);
        assert(subs.skip(k) =~= Seq::<SubsegmentView>::empty());
    } else {
        let sub = subs[k];
        let sbsz = sub_bodies_size(sub);
        lemma_enc_seg_parts_len(subs, k + 1, bp + sbsz);
        crate::wire::lemma_enc_sub_len(sub, bp);
        assert(er == enc_sub_record(sub, bp) + enc_seg_records_from(subs, k + 1, bp + sbsz));
        assert(eb == sub_bodies(sub) + enc_seg_bodies_from(subs, k + 1));
        let rsz1 = sub_record_size(sub);
        lemma_bytes_at(buf, rpos, er, 0);
        lemma_bytes_at(buf, rpos, er, 1);
        assert(buf[rpos] == enc_sub_record(sub, bp)[0]);
        assert(buf[rpos + 1] == enc_sub_record(sub, bp)[1]);
        lemma_sub_at(buf, rpos, er, rsz1, rsz);
        assert(er.subrange(rsz1, rsz) =~= enc_seg_records_from(subs, k + 1, bp + sbsz));
        assert(buf.subrange(rpos + rsz1, rpos + rsz1 + seg_records_size_from(subs, k + 1))
            =~= enc_seg_records_from(subs, k + 1, bp + sbsz));
        lemma_sub_at(buf, bp, eb, sbsz, bsz);
        assert(eb.subrange(sbsz, bsz) =~= enc_seg_bodies_from(subs, k + 1));
        assert(buf.subrange(bp + sbsz, bp + sbsz + seg_bodies_size_from(subs, k + 1))
            =~= enc_seg_bodies_from(subs, k + 1));
        lemma_parse_segment_embed(buf, subs, k + 1, rpos + rsz1, bp + sbsz);
        match sub {
            SubsegmentView::Tracks { flags, tracks } => {
                assert(enc_sub_record(sub, bp) == seq![1u8, flags] + enc_track_hdrs_from(
                    tracks,
                    0,
                    bp,
                ));
                assert(buf[rpos] == 1 && buf[rpos + 1] == flags);
                lemma_enc_tracks_len(tracks, 0, bp);
                lemma_sub_at(buf, rpos, er, 2, 98);
                assert(er.subrange(2, 98) =~= enc_track_hdrs_from(tracks, 0, bp));
                assert(buf.subrange(rpos + 2, rpos + 2 + 96) =~= enc_track_hdrs_from(
                    tracks,
                    0,
                    bp,
                ));
                lemma_sub_at(buf, bp, eb, 0, bodies_size_from(tracks, 0));
                assert(eb.subrange(0, bodies_size_from(tracks, 0)) =~= enc_track_bodies_from(
                    tracks,
                    0,
                ));
                assert(buf.subrange(bp, bp + bodies_size_from(tracks, 0))
                    =~= enc_track_bodies_from(tracks, 0));
                assert(sub_rests_ok(sub) && sub_jumps_ok(sub));
                assert(forall|x: int|
                    0 <= x < 16 ==> cmds_rests_ok((#[trigger] tracks[x]).commands));
                assert(forall|x: int|
                    0 <= x < 16 ==> cmds_jumps_ok((#[trigger] tracks[x]).commands));
                lemma_parse_tracks_embed(buf, tracks, 0, rpos + 2, bp);
                assert(tracks.skip(0) =~= tracks);
                assert(SubsegmentView::Tracks { flags: buf[rpos + 1], tracks } == sub);
            },
            SubsegmentView::Unknown { flags, data } => {
                assert(enc_sub_record(sub, bp) == seq![2u8, flags] + data);
                assert(buf[rpos] == 2 && buf[rpos + 1] == flags);
                lemma_sub_at(buf, rpos, er, 2, 5);
                assert(er.subrange(2, 5) =~= data);
                assert(buf.subrange(rpos + 2, rpos + 5) == data);
                assert(SubsegmentView::Unknown {
                    flags: buf[rpos + 1],
                    data: buf.subrange(rpos + 2, rpos + 5),
                } == sub);
            },
        }
        assert(seq![sub] + subs.skip(k + 1) =~= subs.skip(k));
    }
}

/// The body area after the header is exactly as long as the layout cursor
/// says, and each present slot's segment bytes sit at the slot's pointer.
proof fn lemma_body_area_placed(buf: Seq<u8>, segs: Seq<Option<Seq<SubsegmentView>>>, i: int)
    requires
        segs.len() == 4,
        forall|x: int| 0 <= x < 4 ==> ((#[trigger] segs[x]) matches Some(subs) ==> seg_wf(subs)),
        0 <= i <= 4,
        slot_cursor(segs, i) <= buf.len(),
        buf.len() == slot_cursor(segs, 4),
        buf.subrange(slot_cursor(segs, i), buf.len() as int) == body_area_from(segs, i),
    ensures
        forall|x: int|
            i <= x < 4 ==> ((#[trigger] segs[x]) matches Some(subs) ==> buf.subrange(
                slot_ptr(segs, x),
                slot_ptr(segs, x) + seg_size(subs),
            ) == enc_seg(subs, slot_ptr(segs, x))),
    decreases 4 - i,
{
    if i < 4 {
        lemma_slot_cursor_bounds(segs, i);
        lemma_slot_cursor_bounds(segs, i + 1);
        let cur = slot_cursor(segs, i);
        lemma_align4(cur);
        match segs[i] {
            None => {
                assert(slot_cursor(segs, i + 1) == cur);
                lemma_body_area_placed(buf, segs, i + 1);
            },
            Some(subs) => {
                lemma_enc_seg_len(subs, align4(cur));
                let a = align4(cur);
                let pad = a - cur;
                let ssz = seg_size(subs);
                let ba = body_area_from(segs, i);
                assert(ba == zeros(pad) + enc_seg(subs, a) + body_area_from(segs, i + 1));
                assert(slot_cursor(segs, i + 1) == a + ssz);
                assert(ba.len() == buf.len() - cur);
                lemma_sub_at(buf, cur, ba, pad, pad + ssz);
                assert(ba.subrange(pad, pad + ssz) =~= enc_seg(subs, a));
                assert(buf.subrange(a, a + ssz) == enc_seg(subs, a));
                lemma_sub_at(buf, cur, ba, pad + ssz, ba.len() as int);
                assert(ba.subrange(pad + ssz, ba.len() as int) =~= body_area_from(segs, i + 1));
                assert(buf.subrange(a + ssz, buf.len() as int) == body_area_from(segs, i + 1));
                lemma_body_area_placed(buf, segs, i + 1);
                assert(slot_ptr(segs, i) == a);
            },
        }
    }
}

/// The encoded buffer is exactly `total_size` long and its header fields sit
/// where the layout says.
proof fn lemma_encode_shape(b: BgmView)
    requires
        bgm_wf(b),
        b.index.len() <= 4,
    ensures
        encode_bytes(b).len() == total_size(b.segments),
        encode_bytes(b).subrange(0, 4) == magic(),
        encode_bytes(b).subrange(4, 8) == index_padded(b.index),
        forall|i: int|
            0 <= i < 4 ==> encode_bytes(b).subrange(8 + 4 * i, 12 + 4 * i)
                == spec_u32_to_le_bytes(#[trigger] slot_ptr(b.segments, i) as u32),
        encode_bytes(b).subrange(HEADER_SIZE as int, encode_bytes(b).len() as int)
            == body_area_from(b.segments, 0),
    decreases 0int,
{
    lemma_auto_spec_u32_to_from_le_bytes();
    let buf = encode_bytes(b);
    assert(index_padded(b.index).len() == 4);
    assert(header_bytes(b).len() == 24);
    lemma_body_area_len(b.segments, 0);
    lemma_cursor_low(b.segments, 4);
    assert(buf.len() == 24 + (slot_cursor(b.segments, 4) - 24));
    assert(buf.subrange(0, 4) =~= magic());
    assert(buf.subrange(4, 8) =~= index_padded(b.index));
    assert forall|i: int| 0 <= i < 4 implies buf.subrange(8 + 4 * i, 12 + 4 * i)
        == spec_u32_to_le_bytes(#[trigger] slot_ptr(b.segments, i) as u32) by {
        assert(buf.subrange(8 + 4 * i, 12 + 4 * i) =~= spec_u32_to_le_bytes(
            slot_ptr(b.segments, i) as u32,
        ));
    }
    assert(buf.subrange(HEADER_SIZE as int, buf.len() as int) =~= body_area_from(b.segments, 0));
}

/// The body area from slot `i` on is as long as the cursor still moves.
proof fn lemma_body_area_len(segs: Seq<Option<Seq<SubsegmentView>>>, i: int)
    requires
        segs.len() == 4,
        forall|x: int| 0 <= x < 4 ==> ((#[trigger] segs[x]) matches Some(subs) ==> seg_wf(subs)),
        0 <= i <= 4,
    ensures
        body_area_from(segs, i).len() == slot_cursor(segs, 4) - slot_cursor(segs, i),
    decreases 4 - i,
{
    if i < 4 {
        lemma_body_area_len(segs, i + 1);
        match segs[i] {
            None => {},
            Some(subs) => {
                lemma_align4(slot_cursor(segs, i));
                lemma_enc_seg_len(subs, align4(slot_cursor(segs, i)));
            },
        }
    }
}

/// Slot `i` of the encoded buffer parses back to exactly the slot's value.
proof fn lemma_slot_parses(b: BgmView, i: int)
    requires
        bgm_wf(b),
        b.index.len() <= 4,
        encodable(b),
        0 <= i < 4,
    ensures
        parse_slot(encode_bytes(b), i) == Ok::<_, DecodeError>(b.segments[i]),
{
    lemma_auto_spec_u32_to_from_le_bytes();
    let buf = encode_bytes(b);
    let segs = b.segments;
    lemma_encode_shape(b);
    lemma_body_area_placed(buf, segs, 0);
    let p = spec_u32_from_le_bytes(buf.subrange(8 + 4 * i, 12 + 4 * i));
    assert(p == slot_ptr(segs, i) as u32);
    lemma_slot_cursor_bounds(segs, i);
    lemma_slot_cursor_bounds(segs, i + 1);
    lemma_align4(slot_cursor(segs, i));
    match segs[i] {
        None => {
            assert(p == 0);
        },
        Some(subs) => {
            let a = align4(slot_cursor(segs, i));
            lemma_enc_seg_len(subs, a);
            lemma_enc_seg_parts_len(subs, 0, a + seg_records_size_from(subs, 0));
            assert(p == a);
            assert(p >= 24);
            assert(slot_cursor(segs, i + 1) == a + seg_size(subs));
            assert(a + seg_size(subs) <= buf.len());
            assert(!(p == 0) && !(p > buf.len()));
            let rsz = seg_records_size_from(subs, 0);
            let bp = a + rsz;
            let es = enc_seg(subs, a);
            assert(buf.subrange(a, a + seg_size(subs)) == es);
            lemma_sub_at(buf, a, es, 0, rsz);
            assert(es.subrange(0, rsz) =~= enc_seg_records_from(subs, 0, bp));
            assert(buf.subrange(a, a + rsz) == enc_seg_records_from(subs, 0, bp));
            lemma_sub_at(buf, a, es, rsz, seg_size(subs));
            assert(es.subrange(rsz, seg_size(subs)) =~= enc_seg_bodies_from(subs, 0));
            assert(buf.subrange(bp, bp + seg_bodies_size_from(subs, 0)) == enc_seg_bodies_from(
                subs,
                0,
            ));
            assert(seg_rests_ok(subs) && seg_jumps_ok(subs));
            lemma_parse_segment_embed(buf, subs, 0, a, bp);
            assert(subs.skip(0) =~= subs);
        },
    }
}

/// Round-trip law: decoding an encoded song gives the song back. This holds
/// for every song the data model's constraints allow — the fixed arities,
/// a canonical (exactly 4 ASCII bytes) index — whenever encoding succeeds,
/// i.e. whenever `encodable` holds of the song.
#[verifier::rlimit(100)]
#[verifier::spinoff_prover]
pub proof fn lemma_round_trip(b: BgmView)
    requires
        bgm_wf(b),
        index_canonical(b.index),
        encodable(b),
    ensures
        decode_spec(encode_bytes(b)) == Ok::<BgmView, DecodeError>(b),
{
    lemma_auto_spec_u32_to_from_le_bytes();
    let buf = encode_bytes(b);
    let segs = b.segments;
    lemma_encode_shape(b);
    lemma_slot_cursor_bounds(segs, 0);
    assert(buf.len() >= 24);
    // the index comes back unchanged
    assert(index_padded(b.index) =~= b.index);
    assert(buf.subrange(4, 8) == b.index);
    assert(forall|i: int| 4 <= i < 8 ==> #[trigger] buf[i] < 128) by {
        assert(forall|i: int|
            4 <= i < 8 ==> #[trigger] buf[i] == buf.subrange(4, 8)[i - 4]);
    }
    // each slot parses back
    assert forall|i: int| 0 <= i < 4 implies parse_slot(buf, i) == Ok::<_, DecodeError>(
        segs[i],
    ) by {
        lemma_slot_parses(b, i);
    }
    let r = decode_spec(buf);
    assert(r matches Ok(dec) && dec.index == b.index && dec.segments =~= segs);
    assert(decode_spec(buf) == Ok::<BgmView, DecodeError>(b));
}

/// Offset correctness: after encoding, every present segment pointer in the
/// header names the exact, 4-byte-aligned position of that segment's first
/// byte, and the segment's bytes sit there.
pub proof fn lemma_segment_pointers_resolve(b: BgmView)
    requires
        bgm_wf(b),
        b.index.len() <= 4,
        encodable(b),
    ensures
        forall|i: int|
            0 <= i < 4 ==> ((#[trigger] b.segments[i]) matches Some(subs) ==> {
                let p = spec_u32_from_le_bytes(encode_bytes(b).subrange(8 + 4 * i, 12 + 4 * i));
                &&& p == slot_ptr(b.segments, i)
                &&& p % 4 == 0
                &&& encode_bytes(b).subrange(p as int, p + seg_size(subs)) == enc_seg(
                    subs,
                    p as int,
                )
            }),
{
    lemma_auto_spec_u32_to_from_le_bytes();
    let buf = encode_bytes(b);
    let segs = b.segments;
    lemma_encode_shape(b);
    lemma_body_area_placed(buf, segs, 0);
    assert forall|i: int| 0 <= i < 4 implies ((#[trigger] segs[i]) matches Some(subs) ==> {
        let p = spec_u32_from_le_bytes(buf.subrange(8 + 4 * i, 12 + 4 * i));
        &&& p == slot_ptr(segs, i)
        &&& p % 4 == 0
        &&& buf.subrange(p as int, p + seg_size(subs)) == enc_seg(subs, p as int)
    }) by {
        lemma_slot_cursor_bounds(segs, i);
        lemma_slot_cursor_bounds(segs, i + 1);
        lemma_align4(slot_cursor(segs, i));
        match segs[i] {
            None => {},
            Some(subs) => {
                lemma_enc_seg_len(subs, align4(slot_cursor(segs, i)));
                let sp = slot_ptr(segs, i);
                assert(sp == align4(slot_cursor(segs, i)));
                assert(24 <= sp);
                assert(sp + seg_size(subs) == slot_cursor(segs, i + 1));
                assert(sp <= u32::MAX);
                assert(buf.subrange(8 + 4 * i, 12 + 4 * i) == spec_u32_to_le_bytes(sp as u32));
                let p = spec_u32_from_le_bytes(buf.subrange(8 + 4 * i, 12 + 4 * i));
                assert(p == sp as u32);
                assert(p == sp);
                assert(p % 4 == 0);
                assert(buf.subrange(p as int, p + seg_size(subs)) == enc_seg(subs, p as int));
            },
        }
    }
}

} // verus!
