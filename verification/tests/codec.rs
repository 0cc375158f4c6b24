use mamar::cmd::Command;
use mamar::de::{decode, DecodeError};
use mamar::en::EncodeError;
use mamar::{align, Bgm, Segment, Subsegment, Track};

fn bank(flags: u8, first: Track) -> Subsegment {
    let mut slot: usize = 0;
    let tracks: [Track; 16] = std::array::from_fn(|_| {
        slot += 1;
        if slot == 1 {
            first.clone()
        } else {
            Track::default()
        }
    });
    Subsegment::Tracks { flags, tracks }
}

#[test]
fn test_align() {
    assert_eq!(align(0, 5), 5);
    assert_eq!(align(5, 5), 5);
    assert_eq!(align(6, 5), 10);

    // 0 and 1 values for `n` should be a no-op
    assert_eq!(align(36, 0), 36);
    assert_eq!(align(36, 1), 36);
}

#[test]
fn short_index_pads_to_four_bytes() {
    let song = Bgm { index: b"ab".to_vec(), segments: [None, None, None, None] };
    let bytes = song.as_bytes().unwrap();
    assert_eq!(&bytes[4..8], b"ab  ");
    let back = decode(&bytes).unwrap();
    assert_eq!(back.index, b"ab  ".to_vec());
}

#[test]
fn empty_song_is_header_only() {
    let song = Bgm::default();
    let bytes = song.as_bytes().unwrap();
    assert_eq!(bytes.len(), 24);
    assert_eq!(&bytes[0..4], b"BGM ");
    assert_eq!(&bytes[4..8], b"xxx ");
    assert!(bytes[8..24].iter().all(|&b| b == 0));
    let back = decode(&bytes).unwrap();
    assert_eq!(back, Bgm::default());
}

#[test]
fn truncated_buffer_fails_with_bad_magic_first() {
    let song = Bgm::default();
    let mut bytes = song.as_bytes().unwrap();
    bytes.truncate(3);
    assert_eq!(decode(&bytes), Err(DecodeError::BadMagic));
}

#[test]
fn wrong_signature_always_bad_magic() {
    let song = Bgm::default();
    let mut bytes = song.as_bytes().unwrap();
    bytes[0] = b'X';
    assert_eq!(decode(&bytes), Err(DecodeError::BadMagic));
}

#[test]
fn round_trip_full_song() {
    let tr = Track {
        flags: 0x8001,
        commands: vec![
            Command::Note { pitch: 60, velocity: 100, duration: 24 },
            Command::Rest { duration: 480 },
            Command::Jump { target: 7 },
        ],
    };
    let seg0: Segment = vec![bank(0x10, tr), Subsegment::Unknown { flags: 3, data: [9, 8, 7] }];
    let seg2: Segment = vec![];
    let song = Bgm {
        index: b"117 ".to_vec(),
        segments: [Some(seg0), None, Some(seg2), None],
    };
    let bytes = song.as_bytes().unwrap();
    let back = decode(&bytes).unwrap();
    assert_eq!(back, song);
}

#[test]
fn present_empty_segment_differs_from_absent() {
    let song = Bgm {
        index: b"q   ".to_vec(),
        segments: [Some(vec![]), None, None, None],
    };
    let bytes = song.as_bytes().unwrap();
    let back = decode(&bytes).unwrap();
    assert!(back.segments[0].is_some());
    assert!(back.segments[1].is_none());
    assert_eq!(back.segments[0].as_ref().unwrap().len(), 0);
}

#[test]
fn segment_pointer_resolves_to_segment_start() {
    let song = Bgm {
        index: b"off ".to_vec(),
        segments: [Some(vec![Subsegment::Unknown { flags: 1, data: [1, 2, 3] }]), None, None, None],
    };
    let bytes = song.as_bytes().unwrap();
    let p = u32::from_le_bytes([bytes[8], bytes[9], bytes[10], bytes[11]]) as usize;
    assert_eq!(p, 24);
    assert_eq!(p % 4, 0);
    // the segment's first byte is its first record: an opaque block's tag
    assert_eq!(bytes[p], 2);
    assert_eq!(bytes[p + 1], 1);
    assert_eq!(&bytes[p + 2..p + 5], &[1, 2, 3]);
}

#[test]
fn index_too_long_is_rejected() {
    let song = Bgm { index: b"toolg".to_vec(), segments: [None, None, None, None] };
    assert_eq!(song.as_bytes(), Err(EncodeError::IndexTooLong));
}

#[test]
fn oversized_rest_is_command_encode_failure() {
    let tr = Track { flags: 0, commands: vec![Command::Rest { duration: 0x1_0000 }] };
    let song = Bgm {
        index: b"rest".to_vec(),
        segments: [Some(vec![bank(0, tr)]), None, None, None],
    };
    assert_eq!(song.as_bytes(), Err(EncodeError::CommandEncodeFailure));
}

#[test]
fn jump_target_beyond_pointer_width_is_offset_overflow() {
    let tr = Track { flags: 0, commands: vec![Command::Jump { target: u32::MAX }] };
    let song = Bgm {
        index: b"jmp ".to_vec(),
        segments: [Some(vec![bank(0, tr)]), None, None, None],
    };
    assert_eq!(song.as_bytes(), Err(EncodeError::OffsetOverflow));
}

#[test]
fn non_ascii_index_is_invalid() {
    let mut bytes = Bgm::default().as_bytes().unwrap();
    bytes[5] = 0xC3;
    assert_eq!(decode(&bytes), Err(DecodeError::InvalidIndex));
}

#[test]
fn pointer_past_end_is_out_of_bounds() {
    let mut bytes = Bgm::default().as_bytes().unwrap();
    bytes[8..12].copy_from_slice(&9999u32.to_le_bytes());
    assert_eq!(decode(&bytes), Err(DecodeError::OffsetOutOfBounds { offset: 9999 }));
}

#[test]
fn short_header_is_unexpected_eof() {
    let bytes = b"BGM abcd??".to_vec();
    assert_eq!(decode(&bytes), Err(DecodeError::UnexpectedEof));
}

#[test]
fn unknown_record_tag_is_reported() {
    let mut bytes = Bgm::default().as_bytes().unwrap();
    bytes[8..12].copy_from_slice(&24u32.to_le_bytes());
    bytes.push(0xEE);
    assert_eq!(
        decode(&bytes),
        Err(DecodeError::UnknownCommand { opcode: 0xEE, offset: 24 })
    );
}

#[test]
fn unknown_opcode_in_track_is_reported() {
    // a track bank whose first track points at an unrecognized opcode
    let tr = Track { flags: 0, commands: vec![Command::Note { pitch: 1, velocity: 2, duration: 3 }] };
    let song = Bgm {
        index: b"op  ".to_vec(),
        segments: [Some(vec![bank(0, tr)]), None, None, None],
    };
    let mut bytes = song.as_bytes().unwrap();
    // the first track body lies right after the record run: 24 + 98 + 1
    let body = 24 + 98 + 1;
    assert_eq!(bytes[body], 1);
    bytes[body] = 0x7F;
    assert_eq!(
        decode(&bytes),
        Err(DecodeError::UnknownCommand { opcode: 0x7F, offset: body })
    );
}

#[test]
fn jump_offsets_are_derived_from_the_region_base() {
    let tr = Track { flags: 0, commands: vec![Command::Jump { target: 99 }] };
    let song = Bgm {
        index: b"base".to_vec(),
        segments: [Some(vec![bank(0, tr)]), None, None, None],
    };
    let bytes = song.as_bytes().unwrap();
    // first track body: opcode 3 then the absolute offset 24 + 99
    let body = 24 + 98 + 1;
    assert_eq!(bytes[body], 3);
    let abs = u32::from_le_bytes([bytes[body + 1], bytes[body + 2], bytes[body + 3], bytes[body + 4]]);
    assert_eq!(abs, 24 + 99);
    let back = decode(&bytes).unwrap();
    assert_eq!(back, song);
}

#[test]
fn subsegment_flags_reads_both_shapes() {
    let u = Subsegment::Unknown { flags: 0xAA, data: [0, 0, 0] };
    assert_eq!(u.flags(), 0xAA);
    let t = bank(0x55, Track::default());
    assert_eq!(t.flags(), 0x55);
}
