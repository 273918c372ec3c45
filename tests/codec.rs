use binary_utils::varint::{compose_var_int, var_int_bytes};
use binary_utils::{reverse_vec, BinaryError, SocketAddress, Streamable, LE};

fn round_trip<T: Streamable>(v: &T) -> (T, usize, usize) {
    let bytes = v.parse().unwrap();
    let mut pos: usize = 0;
    let back = T::compose(&bytes, &mut pos).unwrap();
    (back, pos, bytes.len())
}

#[test]
fn unsigned_integers_are_big_endian() {
    assert_eq!(0x1234u16.parse().unwrap(), vec![0x12, 0x34]);
    assert_eq!(0xdead_beefu32.parse().unwrap(), vec![0xde, 0xad, 0xbe, 0xef]);
    assert_eq!(7u8.parse().unwrap(), vec![7]);
    assert_eq!(1u64.parse().unwrap(), vec![0, 0, 0, 0, 0, 0, 0, 1]);
    let big = u128::MAX - 1;
    let b = big.parse().unwrap();
    assert_eq!(b.len(), 16);
    assert_eq!(b[15], 0xfe);
    assert_eq!(b[0], 0xff);
}

#[test]
fn signed_integers_are_twos_complement() {
    assert_eq!((-2i16).parse().unwrap(), vec![0xff, 0xfe]);
    assert_eq!((-1i8).parse().unwrap(), vec![0xff]);
    assert_eq!(i32::MIN.parse().unwrap(), vec![0x80, 0, 0, 0]);
    let mut pos: usize = 0;
    assert_eq!(i64::compose(&[0xff; 8], &mut pos), Ok(-1));
    assert_eq!(pos, 8);
}

#[test]
fn primitives_round_trip() {
    assert_eq!(round_trip(&0xabcdu16), (0xabcd, 2, 2));
    assert_eq!(round_trip(&-123456789i32), (-123456789, 4, 4));
    assert_eq!(round_trip(&i128::MIN), (i128::MIN, 16, 16));
    assert_eq!(round_trip(&u64::MAX), (u64::MAX, 8, 8));
    assert_eq!(round_trip(&true), (true, 1, 1));
    assert_eq!(round_trip(&false), (false, 1, 1));
}

#[test]
fn truncated_integer_is_an_error_and_keeps_cursor() {
    let mut pos: usize = 1;
    assert_eq!(u32::compose(&[1, 2, 3, 4], &mut pos), Err(BinaryError::EndOfInput));
    assert_eq!(pos, 1);
    let mut far: usize = 10;
    assert_eq!(u8::compose(&[1, 2], &mut far), Err(BinaryError::EndOfInput));
    assert_eq!(far, 10);
}

#[test]
fn compose_reads_at_the_cursor() {
    let mut pos: usize = 2;
    assert_eq!(u16::compose(&[9, 9, 0x01, 0x02, 9], &mut pos), Ok(0x0102));
    assert_eq!(pos, 4);
}

#[test]
fn bool_rejects_non_binary_byte() {
    let mut pos: usize = 0;
    assert_eq!(bool::compose(&[2], &mut pos), Err(BinaryError::NonBinaryByte(2)));
    assert_eq!(pos, 0);
    assert_eq!(bool::compose(&[], &mut pos), Err(BinaryError::EndOfInput));
    assert_eq!(bool::compose(&[1], &mut pos), Ok(true));
    assert_eq!(pos, 1);
}

#[test]
fn little_endian_reverses_canonical_bytes() {
    assert_eq!(LE(0x1234u16).parse().unwrap(), vec![0x34, 0x12]);
    assert_eq!(LE(12u32).parse().unwrap(), vec![12, 0, 0, 0]);
    let be = 0x0102_0304u32.parse().unwrap();
    let le = LE(0x0102_0304u32).parse().unwrap();
    assert_eq!(reverse_vec(be.clone()), le);
    let mut p1: usize = 0;
    let mut p2: usize = 0;
    let from_le = LE::<u32>::compose(&le, &mut p1).unwrap().inner();
    let from_be = u32::compose(&be, &mut p2).unwrap();
    assert_eq!(from_le, from_be);
    assert_eq!(p1, 4);
    assert_eq!(LE::<u32>::fixed_size(), Some(4));
}

#[test]
fn little_endian_keeps_absolute_cursor() {
    let source = [0xaa, 0x34, 0x12, 0xbb];
    let mut pos: usize = 1;
    assert_eq!(LE::<u16>::compose(&source, &mut pos).unwrap().inner(), 0x1234);
    assert_eq!(pos, 3);
    let mut short: usize = 3;
    assert!(LE::<u16>::compose(&source, &mut short).is_err());
    assert_eq!(short, 3);
}

#[test]
fn little_endian_string_takes_the_rest() {
    let le = LE("ab".to_string()).parse().unwrap();
    assert_eq!(le, vec![b'b', b'a', 2, 0]);
    let mut pos: usize = 0;
    assert_eq!(LE::<String>::compose(&le, &mut pos).unwrap().inner(), "ab");
    assert_eq!(pos, 4);
    assert_eq!(LE::<String>::fixed_size(), None);
}

#[test]
fn string_has_u16_length_prefix() {
    let b = "Hello".to_string().parse().unwrap();
    assert_eq!(b, vec![0, 5, b'H', b'e', b'l', b'l', b'o']);
    assert_eq!(round_trip(&"héllo wörld".to_string()).0, "héllo wörld");
    assert_eq!(round_trip(&String::new()), (String::new(), 2, 2));
}

#[test]
fn string_errors() {
    let mut pos: usize = 0;
    assert_eq!(String::compose(&[0, 2, 0xff, 0xfe], &mut pos), Err(BinaryError::InvalidUtf8));
    assert_eq!(String::compose(&[0, 5, b'a'], &mut pos), Err(BinaryError::EndOfInput));
    assert_eq!(String::compose(&[0], &mut pos), Err(BinaryError::EndOfInput));
    assert_eq!(pos, 0);
    let long = "x".repeat(70_000);
    assert_eq!(long.parse(), Err(BinaryError::TooLong));
    let max = "y".repeat(65_535);
    assert_eq!(max.parse().unwrap().len(), 65_537);
}

#[test]
fn sequences_of_primitives_use_var_int_count() {
    let v: Vec<u16> = vec![1, 2];
    assert_eq!(v.parse().unwrap(), vec![2, 0, 1, 0, 2]);
    let (back, pos, len) = round_trip(&v);
    assert_eq!(back, v);
    assert_eq!(pos, len);
    let many: Vec<u8> = (0..200u8).collect();
    let b = many.parse().unwrap();
    assert_eq!(&b[..2], &[0xc8, 0x01]);
    assert_eq!(b.len(), 202);
    assert_eq!(round_trip(&many).0.len(), 200);
    let empty: Vec<i64> = Vec::new();
    assert_eq!(empty.parse().unwrap(), vec![0]);
}

#[test]
fn sequence_length_is_kept_and_truncation_fails() {
    let v: Vec<u32> = vec![7, 8, 9];
    let bytes = v.parse().unwrap();
    let mut pos: usize = 0;
    assert_eq!(Vec::<u32>::compose(&bytes, &mut pos).unwrap().len(), 3);
    let mut pos2: usize = 0;
    assert_eq!(Vec::<u16>::compose(&[3, 0, 1, 0, 2], &mut pos2), Err(BinaryError::EndOfInput));
    assert_eq!(pos2, 0);
    let mut pos3: usize = 0;
    assert_eq!(
        Vec::<LE<u16>>::compose(&[0, 3, 1, 0], &mut pos3).map(|v| v.len()),
        Err(BinaryError::EndOfInput)
    );
    assert_eq!(pos3, 0);
}

#[test]
fn sequences_of_little_endian_use_u16_count() {
    let v = vec![LE(1u16), LE(0x0203u16)];
    assert_eq!(v.parse().unwrap(), vec![0, 2, 1, 0, 3, 2]);
    let mut pos: usize = 0;
    let back = Vec::<LE<u16>>::compose(&[0, 2, 1, 0, 3, 2], &mut pos).unwrap();
    let inner: Vec<u16> = back.into_iter().map(|x| x.inner()).collect();
    assert_eq!(inner, vec![1, 0x0203]);
    assert_eq!(pos, 6);
}

#[test]
fn ipv4_address_layout() {
    let a = SocketAddress::V4 { ip: 0x7f00_0001, port: 19132 };
    let b = a.parse().unwrap();
    assert_eq!(b, vec![4, 127, 0, 0, 1, 0x4a, 0xbc]);
    assert_eq!(round_trip(&a), (a, 7, 7));
}

#[test]
fn ipv6_address_layout() {
    let a = SocketAddress::V6 { ip: 1, port: 0x0102, flowinfo: 0x0a0b_0c0d, scope_id: 5 };
    let b = a.parse().unwrap();
    assert_eq!(b.len(), 29);
    assert_eq!(&b[..9], &[6, 0, 0, 1, 2, 0x0a, 0x0b, 0x0c, 0x0d]);
    assert_eq!(b[24], 1);
    assert_eq!(&b[25..], &[0, 0, 0, 5]);
    assert_eq!(round_trip(&a), (a, 29, 29));
}

#[test]
fn unknown_address_tag_is_rejected() {
    let mut pos: usize = 0;
    assert_eq!(
        SocketAddress::compose(&[5, 1, 2, 3, 4, 0, 1], &mut pos),
        Err(BinaryError::UnknownAddressTag(5))
    );
    assert_eq!(pos, 0);
    assert_eq!(SocketAddress::compose(&[4, 1, 2], &mut pos), Err(BinaryError::EndOfInput));
}

#[test]
fn consecutive_values_share_the_cursor() {
    let mut bytes = 0xdead_beefu32.parse().unwrap();
    bytes.extend(LE(0x0102u16).parse().unwrap());
    bytes.extend("hi".to_string().parse().unwrap());
    let mut pos: usize = 0;
    assert_eq!(u32::compose(&bytes, &mut pos), Ok(0xdead_beef));
    assert_eq!(pos, 4);
    assert_eq!(LE::<u16>::compose(&bytes, &mut pos).unwrap().inner(), 0x0102);
    assert_eq!(pos, 6);
    assert_eq!(String::compose(&bytes, &mut pos), Ok("hi".to_string()));
    assert_eq!(pos, bytes.len());
}

#[test]
fn forced_variants() {
    assert_eq!(0x0102u16.fparse(), vec![1, 2]);
    let mut pos: usize = 0;
    assert_eq!(u16::fcompose(&[1, 2], &mut pos), 0x0102);
    assert_eq!(pos, 2);
}

#[test]
fn var_int_encoding() {
    assert_eq!(var_int_bytes(0), vec![0]);
    assert_eq!(var_int_bytes(300), vec![0xac, 0x02]);
    assert_eq!(var_int_bytes(u32::MAX), vec![0xff, 0xff, 0xff, 0xff, 0x0f]);
    let mut pos: usize = 1;
    assert_eq!(compose_var_int(&[9, 0xac, 0x02], &mut pos), Ok(300));
    assert_eq!(pos, 3);
    let mut p2: usize = 0;
    assert_eq!(compose_var_int(&[0x80, 0x80], &mut p2), Err(BinaryError::EndOfInput));
    assert_eq!(p2, 0);
    // The budget of five bytes ends the read even with the top bit set.
    let mut p3: usize = 0;
    assert_eq!(compose_var_int(&[0x81, 0x80, 0x80, 0x80, 0x81, 0x01], &mut p3), Ok(1 + (1 << 28)));
    assert_eq!(p3, 5);
}

#[test]
fn reverse_vec_reverses() {
    assert_eq!(reverse_vec(vec![1, 2, 3]), vec![3, 2, 1]);
    assert_eq!(reverse_vec(Vec::new()), Vec::<u8>::new());
}

#[test]
fn fixed_sizes() {
    assert_eq!(u8::fixed_size(), Some(1));
    assert_eq!(i128::fixed_size(), Some(16));
    assert_eq!(bool::fixed_size(), Some(1));
    assert_eq!(String::fixed_size(), None);
    assert_eq!(Vec::<u8>::fixed_size(), None);
    assert_eq!(SocketAddress::fixed_size(), None);
}
