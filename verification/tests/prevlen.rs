use ziplist::prevlen::{
    decode_prev_len, decode_prev_len_size, prev_len_bytes_diff, store_prev_entry_length,
    store_prev_entry_length_large,
};

#[test]
fn prev_len_round_trip() {
    let lens: Vec<u32> = vec![0, 1, 253, 254, 255, 256, 65535, 65536, 0x01020304, u32::MAX];
    for len in lens {
        let mut buf = vec![0xaau8; 8];
        let written = store_prev_entry_length(Some(&mut buf[..]), len);
        let planned = store_prev_entry_length(None, len);
        assert_eq!(written, planned);
        assert_eq!(written, if len < 254 { 1 } else { 5 });
        assert_eq!(decode_prev_len_size(&buf), written);
        assert_eq!(decode_prev_len(&buf), (written, len));
        for i in (written as usize)..8 {
            assert_eq!(buf[i], 0xaa);
        }
    }
}

#[test]
fn prev_len_short_form_bytes() {
    let mut buf = vec![0u8; 1];
    assert_eq!(store_prev_entry_length(Some(&mut buf[..]), 0), 1);
    assert_eq!(buf, vec![0]);
    assert_eq!(store_prev_entry_length(Some(&mut buf[..]), 253), 1);
    assert_eq!(buf, vec![253]);
}

#[test]
fn prev_len_long_form_bytes() {
    let mut buf = vec![9u8; 6];
    assert_eq!(store_prev_entry_length(Some(&mut buf[..]), 254), 5);
    assert_eq!(buf, vec![254, 254, 0, 0, 0, 9]);
    assert_eq!(store_prev_entry_length(Some(&mut buf[..]), 0x01020304), 5);
    assert_eq!(buf, vec![254, 4, 3, 2, 1, 9]);
    assert_eq!(store_prev_entry_length(Some(&mut buf[..]), u32::MAX), 5);
    assert_eq!(buf, vec![254, 255, 255, 255, 255, 9]);
}

#[test]
fn prev_len_large_form_holds_small_lengths() {
    let mut buf = vec![9u8; 7];
    assert_eq!(store_prev_entry_length_large(Some(&mut buf[..]), 7), 5);
    assert_eq!(buf, vec![254, 7, 0, 0, 0, 9, 9]);
    assert_eq!(decode_prev_len(&buf), (5, 7));
    assert_eq!(store_prev_entry_length_large(None, 7), 5);
    assert_eq!(store_prev_entry_length_large(None, u32::MAX), 5);
}

#[test]
fn prev_len_size_from_first_byte() {
    assert_eq!(decode_prev_len_size(&[0]), 1);
    assert_eq!(decode_prev_len_size(&[253]), 1);
    assert_eq!(decode_prev_len_size(&[254]), 5);
    assert_eq!(decode_prev_len_size(&[255]), 5);
}

#[test]
fn prev_len_marker_byte_is_not_part_of_the_value() {
    assert_eq!(decode_prev_len(&[254, 1, 0, 0, 0]), (5, 1));
    assert_eq!(decode_prev_len(&[255, 1, 0, 0, 0]), (5, 1));
    assert_eq!(decode_prev_len(&[254, 0x78, 0x56, 0x34, 0x12, 0xff]), (5, 0x12345678));
    assert_eq!(decode_prev_len(&[17]), (1, 17));
}

#[test]
fn prev_len_size_without_buffer() {
    assert_eq!(store_prev_entry_length(None, 0), 1);
    assert_eq!(store_prev_entry_length(None, 253), 1);
    assert_eq!(store_prev_entry_length(None, 254), 5);
    assert_eq!(store_prev_entry_length(None, u32::MAX), 5);
}

#[test]
fn prev_len_diff() {
    assert_eq!(prev_len_bytes_diff(&[10], 20), 0);
    assert_eq!(prev_len_bytes_diff(&[10], 254), 4);
    assert_eq!(prev_len_bytes_diff(&[10], u32::MAX), 4);
    assert_eq!(prev_len_bytes_diff(&[254, 0, 1, 0, 0], 20), -4);
    assert_eq!(prev_len_bytes_diff(&[254, 0, 1, 0, 0], 300), 0);
    assert_eq!(prev_len_bytes_diff(&[255], 253), -4);
}

#[test]
fn prev_len_round_trip_of_many_lengths() {
    let mut state: u64 = 0x2545f4914f6cdd1d;
    for round in 0..2000 {
        state = state
            .wrapping_mul(6364136223846793005)
            .wrapping_add(1442695040888963407);
        let len = ((state >> 32) as u32) >> (round % 32);
        let mut buf = vec![0u8; 5];
        let written = store_prev_entry_length(Some(&mut buf[..]), len);
        assert_eq!(written, store_prev_entry_length(None, len));
        assert_eq!(decode_prev_len(&buf), (written, len));
        let mut large = vec![0u8; 5];
        assert_eq!(store_prev_entry_length_large(Some(&mut large[..]), len), 5);
        assert_eq!(decode_prev_len(&large), (5, len));
    }
}
