use cph_tools::frame::{
    checksum_matches, decode_frame_header, encode_clipboard_frame, encode_problem_id,
    next_unknown_problem_id, stored_problem_id,
};

#[test]
fn problem_ids_are_four_big_endian_bytes() {
    assert_eq!(encode_problem_id(0x01020304), vec![1, 2, 3, 4]);
    assert_eq!(stored_problem_id(&[0, 0, 1, 0]), Some(256));
    assert_eq!(stored_problem_id(&[0, 0, 1]), None);
    assert_eq!(stored_problem_id(&[]), None);
}

#[test]
fn the_counter_steps_by_one() {
    assert_eq!(next_unknown_problem_id(&[0, 0, 0, 0]), Some(1));
    assert_eq!(next_unknown_problem_id(&[0, 0, 0, 255]), Some(256));
    assert_eq!(next_unknown_problem_id(&[1, 2]), None);
    let id = 41u32;
    assert_eq!(next_unknown_problem_id(&encode_problem_id(id)), Some(id + 1));
    assert_eq!(encode_problem_id(7), 7u32.to_be_bytes().to_vec());
}

#[test]
fn clipboard_frames() {
    let msg = b"123456789";
    let f = encode_clipboard_frame(msg);
    assert_eq!(f.len(), 12 + msg.len());
    assert_eq!(&f[..8], &(msg.len() as u64).to_be_bytes());
    // The standard CRC-32 check value.
    assert_eq!(&f[8..12], &0xCBF43926u32.to_be_bytes());
    assert_eq!(&f[12..], msg);
    assert_eq!(decode_frame_header(&f[..12]), Some((9, 0xCBF43926)));
    assert_eq!(decode_frame_header(&f[..11]), None);
    assert!(checksum_matches(msg, 0xCBF43926));
    assert!(!checksum_matches(b"12345678", 0xCBF43926));
}

#[test]
fn empty_clipboard_frame() {
    let f = encode_clipboard_frame(b"");
    assert_eq!(f, vec![0, 0, 0, 0, 0, 0, 0, 0, 0, 0, 0, 0]);
    assert_eq!(decode_frame_header(&f), Some((0, 0)));
}
