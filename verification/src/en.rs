//! The encoder: [`Bgm`] to bytes. Validation, layout and writing are each
//! proved against the definitions in [`crate::wire`]; the writing pass
//! produces exactly `wire::encode_bytes` of the song's model.

use vstd::prelude::*;
use vstd::bytes::{u16_to_le_bytes, u32_to_le_bytes};
use vstd::array::array_index_get;
use crate::cmd::Command;
use crate::laws::{lemma_fixed_arities, lemma_seg_view_wf};
use crate::wire::{
    align4, bgm_jumps_ok, bgm_rests_ok, bodies_size_from, cmd_size, cmds_jumps_ok, cmds_rests_ok,
    cmds_size, cmds_size_from, enc_cmd, enc_cmds, enc_cmds_from, enc_seg, enc_seg_bodies_from,
    enc_seg_records_from, enc_sub_record, enc_track_bodies_from, enc_track_hdrs_from, encodable,
    encode_bytes, header_bytes, index_padded, jump_ok, lemma_align4, lemma_enc_cmds_len,
    lemma_enc_seg_len, lemma_enc_seg_parts_len, lemma_enc_sub_len, lemma_enc_tracks_len,
    lemma_slot_cursor_bounds, magic, rest_ok, seg_bodies_size_from, seg_jumps_ok,
    seg_records_size_from, seg_rests_ok, seg_size, slot_cursor, slot_ptr, sub_bodies,
    sub_bodies_size, sub_jumps_ok, sub_record_size, sub_rests_ok, sub_wf, total_size, zeros,
    HEADER_SIZE,
};
use crate::{seg_view, Bgm, BgmView, Segment, Subsegment, SubsegmentView, Track, TrackView};

verus! {

/// Why a song could not be encoded.
#[derive(Clone, Copy, PartialEq, Eq, Debug)]
pub enum EncodeError {
    /// The logical index has more than 4 characters.
    IndexTooLong,
    /// A command's payload cannot be represented on the wire (a rest longer
    /// than the 16-bit duration field).
    CommandEncodeFailure,
    /// A derived offset exceeds the 32-bit pointer width: a jump target too
    /// near the top of the address space, or a laid-out song larger than
    /// the pointers can address.
    OffsetOverflow,
}

/// The error `as_bytes` reports when a song is not encodable: an oversized
/// index first, then unrepresentable commands, then offset overflow.
pub open spec fn encode_err(b: BgmView) -> EncodeError {
    if b.index.len() > 4 {
        EncodeError::IndexTooLong
    } else if !bgm_rests_ok(b) {
        EncodeError::CommandEncodeFailure
    } else {
        EncodeError::OffsetOverflow
    }
}

/// Check every command of a sequence: rests representable, jumps in range.
#[verifier::loop_isolation(false)]
fn check_cmds(cs: &Vec<Command>) -> (r: (bool, bool))
    ensures
        r.0 == cmds_rests_ok(cs@),
        r.1 == cmds_jumps_ok(cs@),
{
    let mut r0 = true;
    let mut r1 = true;
    let mut l: usize = 0;
    while l < cs.len()
        invariant
            0 <= l <= cs.len(),
            r0 == (forall|x: int| 0 <= x < l ==> rest_ok(#[trigger] cs@[x])),
            r1 == (forall|x: int| 0 <= x < l ==> jump_ok(#[trigger] cs@[x])),
        decreases cs.len() - l,
    {
        match cs[l] {
            Command::Rest { duration } => {
                if duration > 0xFFFF {
                    proof {
                        assert(!rest_ok(cs@[l as int]));
                    }
                    r0 = false;
                }
            },
            Command::Jump { target } => {
                if target > u32::MAX - HEADER_SIZE {
                    proof {
                        assert(!jump_ok(cs@[l as int]));
                    }
                    r1 = false;
                }
            },
            Command::Note { .. } => {},
        }
        l = l + 1;
    }
    (r0, r1)
}

/// Check every command of one subsegment.
#[verifier::loop_isolation(false)]
fn check_sub(s: &Subsegment) -> (r: (bool, bool))
    ensures
        r.0 == sub_rests_ok(s@),
        r.1 == sub_jumps_ok(s@),
{
    match s {
        Subsegment::Tracks { flags, tracks } => {
            let ghost tv = crate::tracks_view(*tracks);
            proof {
                assert(tv.len() == 16);
                assert(s@ == (SubsegmentView::Tracks { flags: *flags, tracks: tv }));
            }
            let mut r0 = true;
            let mut r1 = true;
            let mut j: usize = 0;
            while j < 16
                invariant
                    0 <= j <= 16,
                    r0 == (forall|x: int|
                        0 <= x < j ==> cmds_rests_ok((#[trigger] tv[x]).commands)),
                    r1 == (forall|x: int|
                        0 <= x < j ==> cmds_jumps_ok((#[trigger] tv[x]).commands)),
                decreases 16 - j,
            {
                let (a, b) = check_cmds(&array_index_get(tracks, j).commands);
                proof {
                    assert(tv[j as int].commands == tracks@[j as int].commands@);
                }
                r0 = r0 && a;
                r1 = r1 && b;
                j = j + 1;
            }
            proof {
                if r0 {
                    assert forall|x: int| 0 <= x < tv.len() implies cmds_rests_ok(
                        (#[trigger] tv[x]).commands,
                    ) by {
                        assert(0 <= x < 16);
                    }
                } else {
                    assert(exists|x: int|
                        0 <= x < 16 && !cmds_rests_ok((#[trigger] tv[x]).commands));
                    let w = choose|x: int|
                        0 <= x < 16 && !cmds_rests_ok((#[trigger] tv[x]).commands);
                    assert(0 <= w < 16 && !cmds_rests_ok(tv[w].commands));
                    assert(!sub_rests_ok(s@)) by {
                        if sub_rests_ok(s@) {
                            let tx = s@->Tracks_tracks;
                            assert(tx == tv);
                            assert(cmds_rests_ok((#[trigger] tx[w]).commands));
                        }
                    }
                }
                if r1 {
                    assert forall|x: int| 0 <= x < tv.len() implies cmds_jumps_ok(
                        (#[trigger] tv[x]).commands,
                    ) by {
                        assert(0 <= x < 16);
                    }
                } else {
                    assert(exists|x: int|
                        0 <= x < 16 && !cmds_jumps_ok((#[trigger] tv[x]).commands));
                    let w = choose|x: int|
                        0 <= x < 16 && !cmds_jumps_ok((#[trigger] tv[x]).commands);
                    assert(0 <= w < 16 && !cmds_jumps_ok(tv[w].commands));
                    assert(!sub_jumps_ok(s@)) by {
                        if sub_jumps_ok(s@) {
                            let tx = s@->Tracks_tracks;
                            assert(tx == tv);
                            assert(cmds_jumps_ok((#[trigger] tx[w]).commands));
                        }
                    }
                }
            }
            (r0, r1)
        },
        Subsegment::Unknown { .. } => (true, true),
    }
}

/// Check every command of a whole song.
#[verifier::loop_isolation(false)]
fn check_bgm(b: &Bgm) -> (r: (bool, bool))
    ensures
        r.0 == bgm_rests_ok(b@),
        r.1 == bgm_jumps_ok(b@),
{
    let ghost segsv = b@.segments;
    proof {
        assert(segsv.len() == 4);
    }
    let mut r0 = true;
    let mut r1 = true;
    let mut i: usize = 0;
    while i < 4
        invariant
            0 <= i <= 4,
            r0 == (forall|x: int|
                0 <= x < i ==> ((#[trigger] segsv[x]) matches Some(subs) ==> seg_rests_ok(
                    subs,
                ))),
            r1 == (forall|x: int|
                0 <= x < i ==> ((#[trigger] segsv[x]) matches Some(subs) ==> seg_jumps_ok(
                    subs,
                ))),
        decreases 4 - i,
    {
        match array_index_get(&b.segments, i) {
            None => {
                proof {
                    assert(segsv[i as int] is None);
                }
            },
            Some(seg) => {
                let ghost sv = seg_view(*seg);
                proof {
                    assert(segsv[i as int] == Some(sv));
                }
                let mut s0 = true;
                let mut s1 = true;
                let mut k: usize = 0;
                while k < seg.len()
                    invariant
                        0 <= k <= seg.len(),
                        sv == seg_view(*seg),
                        s0 == (forall|x: int| 0 <= x < k ==> sub_rests_ok(#[trigger] sv[x])),
                        s1 == (forall|x: int| 0 <= x < k ==> sub_jumps_ok(#[trigger] sv[x])),
                    decreases seg.len() - k,
                {
                    let (a, c) = check_sub(&seg[k]);
                    proof {
                        assert(sv[k as int] == seg@[k as int]@);
                    }
                    s0 = s0 && a;
                    s1 = s1 && c;
                    k = k + 1;
                }
                proof {
                    assert(s0 == seg_rests_ok(sv));
                    assert(s1 == seg_jumps_ok(sv));
                }
                r0 = r0 && s0;
                r1 = r1 && s1;
            },
        }
        i = i + 1;
    }
    (r0, r1)
}

/// Encoded size of one command body, or `None` if it cannot fit the
/// pointer width.
#[verifier::loop_isolation(false)]
fn cmds_size_exec(cs: &Vec<Command>) -> (r: Option<u64>)
    ensures
        match r {
            Some(z) => z == cmds_size(cs@) && z <= u32::MAX,
            None => cmds_size(cs@) > u32::MAX,
        },
{
    let mut sz: u64 = 1;
    let mut l: usize = 0;
    while l < cs.len()
        invariant
            0 <= l <= cs.len(),
            sz == cmds_size(cs@) - cmds_size_from(cs@, l as int) + 1,
            sz <= u32::MAX,
        decreases cs.len() - l,
    {
        let add: u64 = match cs[l] {
            Command::Note { .. } => 4,
            Command::Rest { .. } => 3,
            Command::Jump { .. } => 5,
        };
        sz = sz + add;
        proof {
            lemma_enc_cmds_len(cs@, l + 1);
        }
        if sz > u32::MAX as u64 {
            return None;
        }
        l = l + 1;
    }
    Some(sz)
}

/// Record-run and body-region sizes of one segment, or `None` if the
/// segment cannot fit the pointer width.
#[verifier::loop_isolation(false)]
fn seg_sizes_exec(seg: &Segment) -> (r: Option<(u64, u64)>)
    ensures
        match r {
            Some((rs, bs)) => rs == seg_records_size_from(seg_view(*seg), 0) && bs
                == seg_bodies_size_from(seg_view(*seg), 0) && rs <= u32::MAX && bs <= u32::MAX,
            None => seg_size(seg_view(*seg)) > u32::MAX,
        },
{
    let ghost sv = seg_view(*seg);
    proof {
        lemma_seg_view_wf(*seg);
    }
    let mut racc: u64 = 0;
    let mut bacc: u64 = 0;
    let mut k: usize = 0;
    while k < seg.len()
        invariant
            0 <= k <= seg.len(),
            racc == seg_records_size_from(sv, 0) - seg_records_size_from(sv, k as int),
            bacc == seg_bodies_size_from(sv, 0) - seg_bodies_size_from(sv, k as int),
            racc <= u32::MAX,
            bacc <= u32::MAX,
        decreases seg.len() - k,
    {
        proof {
            assert(sv[k as int] == seg@[k as int]@);
            lemma_enc_seg_parts_len(sv, k + 1, 0);
        }
        match &seg[k] {
            Subsegment::Unknown { .. } => {
                racc = racc + 5;
            },
            Subsegment::Tracks { tracks, .. } => {
                racc = racc + 98;
                let ghost tv = crate::tracks_view(*tracks);
                let mut j: usize = 0;
                while j < 16
                    invariant
                        0 <= j <= 16,
                        bacc == seg_bodies_size_from(sv, 0) - seg_bodies_size_from(sv, k as int)
                            + (bodies_size_from(tv, 0) - bodies_size_from(tv, j as int)),
                        bacc <= u32::MAX,
                        sub_bodies_size(sv[k as int]) == bodies_size_from(tv, 0),
                        k < seg.len(),
                        tv == crate::tracks_view(*tracks),
                    decreases 16 - j,
                {
                    proof {
                        assert(tv[j as int].commands == tracks@[j as int].commands@);
                        lemma_enc_tracks_len(tv, j + 1, 0);
                        lemma_enc_seg_parts_len(sv, k + 1, 0);
                    }
                    match cmds_size_exec(&array_index_get(tracks, j).commands) {
                        None => {
                            proof {
                                lemma_bodies_remaining_nonneg(sv, k as int);
                            }
                            return None;
                        },
                        Some(z) => {
                            bacc = bacc + z;
                            if bacc > u32::MAX as u64 {
                                proof {
                                    lemma_bodies_remaining_nonneg(sv, k as int);
                                }
                                return None;
                            }
                        },
                    }
                    j = j + 1;
                }
                proof {
                    lemma_enc_tracks_len(tv, 16, 0);
                    assert(bodies_size_from(tv, 16) == 0);
                }
            },
        }
        if racc > u32::MAX as u64 {
            proof {
                lemma_enc_seg_parts_len(sv, k + 1, 0);
            }
            return None;
        }
        k = k + 1;
    }
    proof {
        lemma_enc_seg_parts_len(sv, seg.len() as int, 0);
    }
    if racc >= u32::MAX as u64 {
        return None;
    }
    Some((racc + 1, bacc))
}

/// The body region left from subsegment `k` on, and the record run left,
/// are never negative, so any partial sum bounds the total from below.
proof fn lemma_bodies_remaining_nonneg(sv: Seq<SubsegmentView>, k: int)
    requires
        crate::wire::seg_wf(sv),
        0 <= k <= sv.len(),
    ensures
        seg_bodies_size_from(sv, k) >= 0,
        seg_records_size_from(sv, k) >= 1,
        k < sv.len() ==> (sv[k] matches SubsegmentView::Tracks { tracks, .. }
            ==> seg_bodies_size_from(sv, k) == bodies_size_from(tracks, 0) + seg_bodies_size_from(
            sv,
            k + 1,
        ) && seg_bodies_size_from(sv, k + 1) >= 0),
{
    lemma_enc_seg_parts_len(sv, k, 0);
    if k < sv.len() {
        lemma_enc_seg_parts_len(sv, k + 1, 0);
    }
}

/// `bodies_size_from` at `j` covers track `j`'s own body and stays
/// non-negative.
pub(crate) proof fn lemma_tracks_tail(tracks: Seq<TrackView>, j: int)
    requires
        0 <= j <= tracks.len(),
    ensures
        bodies_size_from(tracks, j) >= 0,
        j < tracks.len() ==> bodies_size_from(tracks, j) >= cmds_size(tracks[j].commands),
    decreases tracks.len() - j,
{
    if j < tracks.len() {
        lemma_tracks_tail(tracks, j + 1);
        lemma_enc_cmds_len(tracks[j].commands, 0);
    }
}

/// Write one command body: the commands in order, then the terminator.
#[verifier::loop_isolation(false)]
fn encode_cmds_exec(cs: &Vec<Command>) -> (v: Vec<u8>)
    requires
        cmds_rests_ok(cs@),
        cmds_jumps_ok(cs@),
    ensures
        v@ == enc_cmds(cs@),
{
    let mut out: Vec<u8> = Vec::new();
    let mut l: usize = 0;
    proof {
        assert(Seq::<u8>::empty() + enc_cmds_from(cs@, 0) =~= enc_cmds(cs@));
    }
    while l < cs.len()
        invariant
            0 <= l <= cs.len(),
            out@ + enc_cmds_from(cs@, l as int) == enc_cmds(cs@),
        decreases cs.len() - l,
    {
        let ghost out0 = out@;
        let c = cs[l];
        proof {
            assert(rest_ok(cs@[l as int]) && jump_ok(cs@[l as int]));
        }
        match c {
            Command::Note { pitch, velocity, duration } => {
                out.push(1);
                out.push(pitch);
                out.push(velocity);
                out.push(duration);
            },
            Command::Rest { duration } => {
                out.push(2);
                let mut w = u16_to_le_bytes(duration as u16);
                out.append(&mut w);
            },
            Command::Jump { target } => {
                out.push(3);
                let mut w = u32_to_le_bytes(target + HEADER_SIZE);
                out.append(&mut w);
            },
        }
        proof {
            assert(out@ =~= out0 + enc_cmd(cs@[l as int]));
            assert((out0 + enc_cmd(cs@[l as int])) + enc_cmds_from(cs@, l + 1) =~= out0 + (enc_cmd(
                cs@[l as int],
            ) + enc_cmds_from(cs@, l + 1)));
        }
        l = l + 1;
    }
    out.push(0);
    proof {
        assert(enc_cmds_from(cs@, cs@.len() as int) =~= seq![0u8]);
        assert(out@ =~= enc_cmds(cs@));
    }
    out
}

/// Write one segment as laid out at absolute position `start`: the record
/// run with its terminator, then the command bodies.
#[verifier::loop_isolation(false)]
fn encode_seg_exec(seg: &Segment, start: u32) -> (v: Vec<u8>)
    requires
        seg_rests_ok(seg_view(*seg)),
        seg_jumps_ok(seg_view(*seg)),
        start + seg_size(seg_view(*seg)) <= u32::MAX,
    ensures
        v@ == enc_seg(seg_view(*seg), start as int),
{
    let ghost sv = seg_view(*seg);
    proof {
        lemma_seg_view_wf(*seg);
        lemma_enc_seg_parts_len(sv, 0, 0);
    }
    // First pass: the record run's size, to know where bodies begin.
    let mut racc: u64 = 0;
    let mut k: usize = 0;
    while k < seg.len()
        invariant
            0 <= k <= seg.len(),
            racc == seg_records_size_from(sv, 0) - seg_records_size_from(sv, k as int),
        decreases seg.len() - k,
    {
        proof {
            assert(sv[k as int] == seg@[k as int]@);
            lemma_enc_seg_parts_len(sv, k + 1, 0);
            lemma_enc_seg_parts_len(sv, k as int, 0);
        }
        match &seg[k] {
            Subsegment::Tracks { .. } => {
                racc = racc + 98;
            },
            Subsegment::Unknown { .. } => {
                racc = racc + 5;
            },
        }
        k = k + 1;
    }
    let rs: u64 = racc + 1;
    proof {
        lemma_enc_seg_parts_len(sv, seg.len() as int, 0);
        assert(rs == seg_records_size_from(sv, 0));
    }
    // Second pass: records into `rec`, bodies into `bodies`; each track
    // header's pointer is where the bodies stand so far.
    let mut rec: Vec<u8> = Vec::new();
    let mut bodies: Vec<u8> = Vec::new();
    let mut k: usize = 0;
    proof {
        assert(Seq::<u8>::empty() + enc_seg_records_from(sv, 0, start + rs) =~= enc_seg_records_from(
            sv,
            0,
            start + rs,
        ));
        assert(Seq::<u8>::empty() + enc_seg_bodies_from(sv, 0) =~= enc_seg_bodies_from(sv, 0));
    }
    while k < seg.len()
        invariant
            0 <= k <= seg.len(),
            rec@ + enc_seg_records_from(sv, k as int, start + rs + bodies@.len()) == enc_seg_records_from(
                sv,
                0,
                start + rs,
            ),
            bodies@ + enc_seg_bodies_from(sv, k as int) == enc_seg_bodies_from(sv, 0),
            bodies@.len() == seg_bodies_size_from(sv, 0) - seg_bodies_size_from(sv, k as int),
        decreases seg.len() - k,
    {
        let ghost rec0 = rec@;
        let ghost bodies0 = bodies@;
        let ghost bp = start + rs + bodies@.len();
        proof {
            assert(sv[k as int] == seg@[k as int]@);
            lemma_enc_seg_parts_len(sv, k as int, bp as int);
            lemma_enc_seg_parts_len(sv, k + 1, 0);
        }
        match &seg[k] {
            Subsegment::Unknown { flags, data } => {
                rec.push(2);
                rec.push(*flags);
                rec.push(*array_index_get(data, 0));
                rec.push(*array_index_get(data, 1));
                rec.push(*array_index_get(data, 2));
                proof {
                    assert(enc_sub_record(sv[k as int], bp) =~= seq![2u8, *flags] + data@);
                    assert(rec@ =~= rec0 + enc_sub_record(sv[k as int], bp));
                    assert((rec0 + enc_sub_record(sv[k as int], bp)) + enc_seg_records_from(
                        sv,
                        k + 1,
                        bp + sub_bodies_size(sv[k as int]),
                    ) =~= rec0 + (enc_sub_record(sv[k as int], bp) + enc_seg_records_from(
                        sv,
                        k + 1,
                        bp + sub_bodies_size(sv[k as int]),
                    )));
                    assert(bodies0 + sub_bodies(sv[k as int]) =~= bodies0);
                }
            },
            Subsegment::Tracks { flags, tracks } => {
                rec.push(1);
                rec.push(*flags);
                let ghost tv = crate::tracks_view(*tracks);
                let ghost hdr0 = rec@;
                let ghost mut hacc: Seq<u8> = Seq::empty();
                let ghost mut bacc: Seq<u8> = Seq::empty();
                let mut j: usize = 0;
                proof {
                    assert(tv.len() == 16);
                    assert(hacc + enc_track_hdrs_from(tv, 0, bp as int) =~= enc_track_hdrs_from(
                        tv,
                        0,
                        bp as int,
                    ));
                    assert(bacc + enc_track_bodies_from(tv, 0) =~= enc_track_bodies_from(tv, 0));
                    lemma_bodies_remaining_nonneg(sv, k as int);
                    assert(bp == start + rs + bodies0.len());
                    assert(bodies0.len() == seg_bodies_size_from(sv, 0) - seg_bodies_size_from(
                        sv,
                        k as int,
                    ));
                    assert(rs == seg_records_size_from(sv, 0));
                }
                while j < 16
                    invariant
                        0 <= j <= 16,
                        k < seg.len(),
                        sv[k as int] == seg@[k as int]@,
                        sv[k as int] matches SubsegmentView::Tracks { tracks: tvx, .. } && tvx
                            == tv,
                        tv.len() == 16,
                        rec@ == hdr0 + hacc,
                        bodies@ == bodies0 + bacc,
                        hacc + enc_track_hdrs_from(tv, j as int, bp + bacc.len())
                            == enc_track_hdrs_from(tv, 0, bp as int),
                        bacc + enc_track_bodies_from(tv, j as int) == enc_track_bodies_from(
                            tv,
                            0,
                        ),
                        bacc.len() == bodies_size_from(tv, 0) - bodies_size_from(tv, j as int),
                    decreases 16 - j,
                {
                    proof {
                        assert(tv[j as int] == tracks@[j as int]@);
                        lemma_tracks_tail(tv, j as int);
                        lemma_tracks_tail(tv, j + 1);
                        lemma_enc_cmds_len(tv[j as int].commands, 0);
                        lemma_bodies_remaining_nonneg(sv, k as int);
                        lemma_enc_seg_parts_len(sv, k + 1, 0);
                        assert(seg_rests_ok(sv) && seg_jumps_ok(sv));
                        assert(sub_rests_ok(sv[k as int]) && sub_jumps_ok(sv[k as int]));
                        assert(cmds_rests_ok(tv[j as int].commands) && cmds_jumps_ok(
                            tv[j as int].commands,
                        ));
                    }
                    let t = array_index_get(tracks, j);
                    let ptr64: u64 = start as u64 + rs + bodies.len() as u64;
                    proof {
                        assert(ptr64 == bp + bacc.len());
                        assert(ptr64 <= start + seg_size(sv));
                    }
                    let ghost hacc0 = hacc;
                    let ghost bacc0 = bacc;
                    let mut h = u16_to_le_bytes(t.flags);
                    rec.append(&mut h);
                    let mut p = u32_to_le_bytes(ptr64 as u32);
                    rec.append(&mut p);
                    let mut bb = encode_cmds_exec(&t.commands);
                    proof {
                        vstd::bytes::lemma_auto_spec_u16_to_from_le_bytes();
                        vstd::bytes::lemma_auto_spec_u32_to_from_le_bytes();
                        hacc = hacc + spec_u16(t.flags) + spec_u32(ptr64 as u32);
                        bacc = bacc + bb@;
                        assert(rec@ =~= hdr0 + hacc);
                        assert(bb@.len() == cmds_size(tv[j as int].commands));
                        assert(enc_track_hdrs_from(tv, j as int, bp + bacc0.len()) == spec_u16(
                            tv[j as int].flags,
                        ) + spec_u32((bp + bacc0.len()) as u32) + enc_track_hdrs_from(
                            tv,
                            j + 1,
                            bp + bacc0.len() + cmds_size(tv[j as int].commands),
                        ));
                        assert(hacc + enc_track_hdrs_from(tv, j + 1, bp + bacc.len())
                            =~= hacc0 + enc_track_hdrs_from(tv, j as int, bp + bacc0.len()));
                        assert(enc_track_bodies_from(tv, j as int) == enc_cmds(
                            tv[j as int].commands,
                        ) + enc_track_bodies_from(tv, j + 1));
                        assert(bacc + enc_track_bodies_from(tv, j + 1) =~= bacc0
                            + enc_track_bodies_from(tv, j as int));
                    }
                    bodies.append(&mut bb);
                    j = j + 1;
                }
                proof {
                    assert(enc_track_hdrs_from(tv, 16, bp + bacc.len()) =~= Seq::<u8>::empty());
                    assert(hacc =~= enc_track_hdrs_from(tv, 0, bp as int));
                    assert(enc_track_bodies_from(tv, 16) =~= Seq::<u8>::empty());
                    assert(bacc =~= enc_track_bodies_from(tv, 0));
                    assert(enc_sub_record(sv[k as int], bp as int) =~= seq![1u8, *flags] + hacc);
                    assert(rec@ =~= rec0 + enc_sub_record(sv[k as int], bp as int));
                    assert(sub_bodies(sv[k as int]) == bacc);
                    assert(bodies@ =~= bodies0 + sub_bodies(sv[k as int]));
                    assert(sub_bodies_size(sv[k as int]) == bacc.len());
                    assert((rec0 + enc_sub_record(sv[k as int], bp as int))
                        + enc_seg_records_from(sv, k + 1, bp + sub_bodies_size(sv[k as int]))
                        =~= rec0 + (enc_sub_record(sv[k as int], bp as int)
                        + enc_seg_records_from(sv, k + 1, bp + sub_bodies_size(sv[k as int]))));
                    assert((bodies0 + sub_bodies(sv[k as int])) + enc_seg_bodies_from(sv, k + 1)
                        =~= bodies0 + (sub_bodies(sv[k as int]) + enc_seg_bodies_from(sv, k + 1)));
                }
            },
        }
        k = k + 1;
    }
    rec.push(0);
    proof {
        assert(enc_seg_records_from(sv, seg@.len() as int, start + rs + bodies@.len())
            =~= seq![0u8]);
        assert(rec@ =~= enc_seg_records_from(sv, 0, start + rs));
        assert(enc_seg_bodies_from(sv, seg@.len() as int) =~= Seq::<u8>::empty());
        assert(bodies@ =~= enc_seg_bodies_from(sv, 0));
    }
    let mut b2 = bodies;
    rec.append(&mut b2);
    proof {
        assert(rec@ =~= enc_seg(sv, start as int));
    }
    rec
}

/// Shorthands for the vstd little-endian byte encodings.
pub open spec fn spec_u16(x: u16) -> Seq<u8> {
    vstd::bytes::spec_u16_to_le_bytes(x)
}

pub open spec fn spec_u32(x: u32) -> Seq<u8> {
    vstd::bytes::spec_u32_to_le_bytes(x)
}

impl Bgm {
    /// Encode this song.
    ///
    /// Returns exactly `wire::encode_bytes` of the song's model when the
    /// song is encodable, and otherwise the error `wire::encodable` rules
    /// out: an index over 4 bytes, then a rest beyond the 16-bit duration
    /// field, then any offset beyond the 32-bit pointer width — before any
    /// output is produced.
    #[verifier::loop_isolation(false)]
    #[verifier::rlimit(60)]
    pub fn as_bytes(&self) -> (r: Result<Vec<u8>, EncodeError>)
        ensures
            match r {
                Ok(v) => encodable(self@) && v@ == encode_bytes(self@),
                Err(e) => !encodable(self@) && e == encode_err(self@),
            },
    {
        let ghost segsv = self@.segments;
        proof {
            lemma_fixed_arities(*self);
            assert(segsv.len() == 4);
        }
        if self.index.len() > 4 {
            return Err(EncodeError::IndexTooLong);
        }
        let (rests, jumps) = check_bgm(self);
        if !rests {
            return Err(EncodeError::CommandEncodeFailure);
        }
        if !jumps {
            return Err(EncodeError::OffsetOverflow);
        }
        // Layout: each present slot's pointer, walking the cursor forward.
        let mut ptrs: Vec<u32> = Vec::new();
        let mut cursor: u64 = HEADER_SIZE as u64;
        let mut i: usize = 0;
        while i < 4
            invariant
                0 <= i <= 4,
                ptrs@.len() == i,
                cursor == slot_cursor(segsv, i as int),
                cursor <= u32::MAX,
                forall|x: int| 0 <= x < i ==> ptrs@[x] == slot_ptr(segsv, x),
            decreases 4 - i,
        {
            match array_index_get(&self.segments, i) {
                None => {
                    proof {
                        assert(segsv[i as int] is None);
                    }
                    ptrs.push(0);
                },
                Some(seg) => {
                    let ghost sv = seg_view(*seg);
                    proof {
                        assert(segsv[i as int] == Some(sv));
                        lemma_seg_view_wf(*seg);
                        lemma_slot_cursor_bounds(segsv, i + 1);
                        lemma_align4(cursor as int);
                        lemma_enc_seg_parts_len(sv, 0, 0);
                    }
                    let a: u64 = if cursor % 4 == 0 {
                        cursor
                    } else {
                        cursor + (4 - cursor % 4)
                    };
                    proof {
                        assert(a == align4(cursor as int));
                    }
                    match seg_sizes_exec(seg) {
                        None => {
                            return Err(EncodeError::OffsetOverflow);
                        },
                        Some((rs, bs)) => {
                            if a + rs + bs > u32::MAX as u64 {
                                return Err(EncodeError::OffsetOverflow);
                            }
                            ptrs.push(a as u32);
                            cursor = a + rs + bs;
                        },
                    }
                },
            }
            i = i + 1;
        }
        // Write: header, then padding and segment bytes per present slot.
        let mut out: Vec<u8> = Vec::new();
        out.push(66);
        out.push(71);
        out.push(77);
        out.push(32);
        let mut k: usize = 0;
        while k < self.index.len()
            invariant
                0 <= k <= self.index@.len() <= 4,
                out@ == magic() + self.index@.subrange(0, k as int),
            decreases self.index@.len() - k,
        {
            out.push(self.index[k]);
            proof {
                assert(magic() + self.index@.subrange(0, k + 1) =~= out@);
            }
            k = k + 1;
        }
        proof {
            assert(self.index@.subrange(0, self.index@.len() as int) =~= self.index@);
        }
        while out.len() < 8
            invariant
                4 + self.index@.len() <= out@.len() <= 8,
                out@ == magic() + self.index@ + Seq::new(
                    (out@.len() - 4 - self.index@.len()) as nat,
                    |x: int| 32u8,
                ),
            decreases 8 - out@.len(),
        {
            out.push(32);
            proof {
                assert(magic() + self.index@ + Seq::new(
                    (out@.len() - 4 - self.index@.len()) as nat,
                    |x: int| 32u8,
                ) =~= out@);
            }
        }
        proof {
            assert(out@ =~= magic() + index_padded(self.index@));
        }
        let mut w0 = u32_to_le_bytes(ptrs[0]);
        out.append(&mut w0);
        let mut w1 = u32_to_le_bytes(ptrs[1]);
        out.append(&mut w1);
        let mut w2 = u32_to_le_bytes(ptrs[2]);
        out.append(&mut w2);
        let mut w3 = u32_to_le_bytes(ptrs[3]);
        out.append(&mut w3);
        proof {
            vstd::bytes::lemma_auto_spec_u32_to_from_le_bytes();
            assert(out@ =~= header_bytes(self@));
            assert(out@.len() == HEADER_SIZE as int);
            assert(Seq::<u8>::empty() + crate::wire::body_area_from(segsv, 0)
                =~= crate::wire::body_area_from(segsv, 0));
        }
        let mut i: usize = 0;
        while i < 4
            invariant
                0 <= i <= 4,
                out@.len() == slot_cursor(segsv, i as int),
                out@ + crate::wire::body_area_from(segsv, i as int) == header_bytes(self@)
                    + crate::wire::body_area_from(segsv, 0),
                total_size(segsv) <= u32::MAX,
                forall|x: int| 0 <= x < 4 ==> ptrs@[x] == slot_ptr(segsv, x),
                ptrs@.len() == 4,
            decreases 4 - i,
        {
            match array_index_get(&self.segments, i) {
                None => {
                    proof {
                        assert(segsv[i as int] is None);
                    }
                },
                Some(seg) => {
                    let ghost sv = seg_view(*seg);
                    let ghost out0 = out@;
                    proof {
                        assert(segsv[i as int] == Some(sv));
                        lemma_seg_view_wf(*seg);
                        lemma_slot_cursor_bounds(segsv, i + 1);
                        lemma_align4(out@.len() as int);
                        lemma_enc_seg_len(sv, align4(slot_cursor(segsv, i as int)));
                    }
                    while out.len() % 4 != 0
                        invariant
                            out0.len() <= out@.len() <= align4(out0.len() as int),
                            out@ == out0 + zeros(out@.len() - out0.len()),
                        decreases align4(out0.len() as int) - out@.len(),
                    {
                        out.push(0);
                        proof {
                            assert(out0 + zeros(out@.len() - out0.len()) =~= out@);
                        }
                    }
                    proof {
                        assert(out@.len() == align4(out0.len() as int));
                    }
                    let start32 = out.len() as u32;
                    let mut segbytes = encode_seg_exec(seg, start32);
                    out.append(&mut segbytes);
                    proof {
                        assert((out0 + zeros(align4(out0.len() as int) - out0.len()) + enc_seg(
                            sv,
                            align4(out0.len() as int),
                        )) + crate::wire::body_area_from(segsv, i + 1) =~= out0 + (zeros(
                            align4(out0.len() as int) - out0.len(),
                        ) + enc_seg(sv, align4(out0.len() as int)) + crate::wire::body_area_from(
                            segsv,
                            i + 1,
                        )));
                    }
                },
            }
            i = i + 1;
        }
        proof {
            assert(crate::wire::body_area_from(segsv, 4) =~= Seq::<u8>::empty());
            assert(out@ + Seq::<u8>::empty() =~= out@);
            assert(out@ == encode_bytes(self@));
        }
        Ok(out)
    }
}

} // verus!

