use binary_utils::{BinaryError, BinaryStream};

fn sample() -> BinaryStream {
    BinaryStream::new(&vec![98, 105, 110, 97, 114, 121, 32, 117, 116, 105, 108, 115])
}

#[test]
fn new_stream_covers_the_buffer() {
    let s = sample();
    assert_eq!(s.get_offset(), 0);
    assert_eq!(s.get_bounds(), (0, 12));
    assert_eq!(s.get(0), Ok(98));
    assert_eq!(s.get(11), Ok(115));
    assert_eq!(s.get(12), Err(BinaryError::OutOfBounds));
    assert!(s.is_within_bounds(12));
    assert!(!s.is_within_bounds(13));
}

#[test]
fn clamp_hides_lower_bytes_and_returns_a_full_copy() {
    let mut s = sample();
    let copy = s.clamp(7).unwrap();
    assert_eq!(s.get_bounds(), (7, 12));
    assert_eq!(s.get_offset(), 7);
    assert_eq!(s.get(6), Err(BinaryError::OutsideWindow));
    assert_eq!(s.get(7), Ok(117));
    assert!(!s.is_within_bounds(3));
    assert_eq!(copy.get(0), Ok(98));
    assert_eq!(copy.get_bounds(), (0, 12));
    assert_eq!(s.clamp(13).map(|c| c.get_offset()), Err(BinaryError::OutsideWindow));
}

#[test]
fn offsets_stay_in_the_window() {
    let mut s = sample();
    assert!(s.set_offset(12));
    assert!(!s.set_offset(13));
    assert_eq!(s.get_offset(), 12);
    assert!(s.set_offset(2));
    assert_eq!(s.increase_offset(None), Ok(3));
    assert_eq!(s.increase_offset(Some(9)), Ok(12));
    assert_eq!(s.increase_offset(Some(1)), Err(BinaryError::OutOfBounds));
    assert_eq!(s.get_offset(), 12);
    let _ = s.clamp(5).unwrap();
    assert!(!s.set_offset(4));
    assert_eq!(s.increase_offset(Some(usize::MAX)), Err(BinaryError::OutsideWindow));
}

#[test]
fn allocate_grows_with_zeros() {
    let mut s = BinaryStream::new(&vec![1, 2]);
    s.allocate(3);
    assert_eq!(s.get_buffer(), &vec![1, 2, 0, 0, 0]);
    assert_eq!(s.get_bounds(), (0, 5));
    assert_eq!(s.get(4), Ok(0));
}

#[test]
fn ranges_and_writes_respect_bounds() {
    let mut s = sample();
    assert_eq!(s.get_range(0, 6), Ok(b"binary".to_vec()));
    assert_eq!(s.get_range(4, 13), Err(BinaryError::OutOfBounds));
    assert_eq!(s.get_range(5, 4), Err(BinaryError::OutOfBounds));
    assert_eq!(s.set(0, 66), Ok(()));
    assert_eq!(s.get(0), Ok(66));
    assert_eq!(s.set(12, 1), Err(BinaryError::OutOfBounds));
    let _ = s.clamp(3).unwrap();
    assert_eq!(s.set(1, 1), Err(BinaryError::OutsideWindow));
    assert_eq!(s.get_range(2, 5), Err(BinaryError::OutsideWindow));
}

#[test]
fn read_clamps_behind_the_cursor() {
    let mut s = sample();
    assert!(s.set_offset(4));
    assert_eq!(s.read(), Ok(114));
    assert_eq!(s.get_offset(), 5);
    assert_eq!(s.get_bounds(), (4, 12));
    assert_eq!(s.get(3), Err(BinaryError::OutsideWindow));
    assert!(s.set_offset(12));
    assert_eq!(s.read(), Err(BinaryError::OutsideWindow));
}

#[test]
fn typed_reads() {
    let mut s = BinaryStream::new(&vec![
        0xff, 0x01, 0x02, 0x02, 0x01, 0xff, 0xff, 0xff, 0xfe, 0x00, 0x00, 0x00, 0x00, 0x00, 0x00,
        0x00, 0x05, 0x05, 0x00, 0x00, 0x00, 0x00, 0x00, 0x00, 0x00, 0xac, 0x02, 0x00,
    ]);
    assert_eq!(s.read_signed_byte(), Ok(-1));
    assert_eq!(s.read_short(), Ok(0x0102));
    assert_eq!(s.read_short_le(), Ok(0x0102));
    assert_eq!(s.read_int(), Ok(-2));
    assert_eq!(s.read_long(), Ok(5));
    assert_eq!(s.read_long_le(), Ok(5));
    assert_eq!(s.read_var_int(), Ok(300));
    assert_eq!(s.read_bool(), Ok(false));
    assert_eq!(s.get_offset(), 28);
    assert_eq!(s.read_byte(), Err(BinaryError::EndOfInput));
    assert_eq!(s.get_offset(), 28);
}

#[test]
fn more_typed_reads() {
    let mut s = BinaryStream::new(&vec![0xfe, 0xff, 0x02, 0x00, 0x00, 0x00, 0xff, 0xfe, 7, 0]);
    assert_eq!(s.read_signed_short_le(), Ok(-2));
    assert_eq!(s.read_int_le(), Ok(2));
    assert_eq!(s.read_signed_short(), Ok(-2));
    assert_eq!(s.read_bool(), Ok(true));
    assert_eq!(s.read_byte(), Ok(0));
}

#[test]
fn read_string_from_stream() {
    let mut s = BinaryStream::new(&vec![0, 2, b'o', b'k', 0, 9, b'x']);
    assert_eq!(s.read_string(), Ok("ok".to_string()));
    assert_eq!(s.get_offset(), 4);
    assert_eq!(s.read_string(), Err(BinaryError::EndOfInput));
    assert_eq!(s.get_offset(), 4);
}

#[test]
fn reads_stop_at_the_upper_bound() {
    let mut s = BinaryStream::new(&vec![0, 1, 2, 3]);
    assert!(s.set_offset(3));
    assert_eq!(s.read_short(), Err(BinaryError::EndOfInput));
    assert_eq!(s.read_as::<u8>(), Ok(3));
}
