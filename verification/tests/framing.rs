use secretd::framing::{
    bounded_frame_length, frame, frame_length, unframe, zero_frame, PREFIX_BYTES,
};

#[test]
fn prefix_has_four_bytes() {
    assert_eq!(PREFIX_BYTES, 4);
}

#[test]
fn frame_puts_the_length_before_the_payload() {
    assert_eq!(frame(b"abc"), Some(vec![0, 0, 0, 3, b'a', b'b', b'c']));
}

#[test]
fn frame_spells_the_length_most_significant_byte_first() {
    let payload = vec![7u8; 258];
    let framed = frame(&payload).unwrap();
    assert_eq!(&framed[..4], &[0, 0, 1, 2]);
    assert_eq!(&framed[4..], &payload[..]);
    let payload = vec![1u8; 0x01_02_03];
    let framed = frame(&payload).unwrap();
    assert_eq!(&framed[..4], &[0, 1, 2, 3]);
    assert_eq!(framed.len(), 0x01_02_03 + 4);
}

#[test]
fn frame_of_nothing_is_the_zero_frame() {
    assert_eq!(frame(&[]), Some(vec![0, 0, 0, 0]));
    assert_eq!(zero_frame(), vec![0, 0, 0, 0]);
}

#[test]
fn frame_length_reads_a_prefix() {
    assert_eq!(frame_length(&[0, 0, 1, 2]), Some(258));
    assert_eq!(frame_length(&[0, 0, 0, 0]), Some(0));
    assert_eq!(frame_length(&[0xFF, 0xFF, 0xFF, 0xFF]), Some(u32::MAX));
    assert_eq!(frame_length(&[0x12, 0x34, 0x56, 0x78]), Some(0x1234_5678));
}

#[test]
fn frame_length_takes_four_bytes_and_no_others() {
    assert_eq!(frame_length(&[]), None);
    assert_eq!(frame_length(&[0, 0, 1]), None);
    assert_eq!(frame_length(&[0, 0, 0, 1, 9]), None);
}

#[test]
fn unframe_undoes_frame() {
    let payload = b"{\"A\":\"1\"}".to_vec();
    let framed = frame(&payload).unwrap();
    assert_eq!(unframe(&framed), Some(payload));
    assert_eq!(unframe(&zero_frame()), Some(Vec::new()));
}

#[test]
fn unframe_refuses_what_is_no_frame() {
    assert_eq!(unframe(&[0, 0, 0]), None);
    assert_eq!(unframe(&[0, 0, 0, 2, b'a']), None);
    assert_eq!(unframe(&[0, 0, 0, 1, b'a', b'b']), None);
    assert_eq!(unframe(&[1, 0, 0, 1, b'a']), None);
}

#[test]
fn bounded_frame_length_refuses_what_is_beyond_the_limit() {
    assert_eq!(bounded_frame_length(&[0, 0, 1, 2], 258), Some(258));
    assert_eq!(bounded_frame_length(&[0, 0, 1, 2], 1000), Some(258));
    assert_eq!(bounded_frame_length(&[0, 0, 1, 2], 257), None);
    assert_eq!(bounded_frame_length(&[0, 0, 0, 0], 0), Some(0));
    assert_eq!(bounded_frame_length(&[0xFF, 0xFF, 0xFF, 0xFF], u32::MAX), Some(u32::MAX));
    assert_eq!(bounded_frame_length(&[0, 1, 2], 1000), None);
    assert_eq!(bounded_frame_length(&[0, 0, 0, 1, 2], 1000), None);
}
