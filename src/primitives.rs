//! The fixed-width primitives: integers as their big-endian bytes, and
//! booleans as one byte.
use vstd::prelude::*;
use crate::codec::Streamable;
use crate::error::BinaryError;
use crate::wire::{
    be_bytes, be_value, byte_cap, lemma_be_bytes_len, lemma_be_round_trip, lemma_be_value_bound,
    lemma_byte_caps, read_be, rest, rest_slice, write_be,
};

verus! {

/// The fixed-width integers: every value has an encoding, and all encodings
/// have one nonzero length.
pub trait Primitive: Streamable {
    /// Every value has an encoding, of the one nonzero size.
    proof fn lemma_primitive(m: Self::V)
        ensures
            Self::spec_size() matches Some(k) && k > 0,
            Self::spec_wire(m) is Ok,
    ;
}

/// `width` bytes followed by anything read back as the value they encode.
proof fn lemma_uint_round_trip(v: nat, width: nat, tail: Seq<u8>)
    requires
        v < byte_cap(width),
    ensures
        be_bytes(v, width).len() == width,
        (be_bytes(v, width) + tail).take(width as int) == be_bytes(v, width),
        be_value((be_bytes(v, width) + tail).take(width as int)) == v,
{
    lemma_be_bytes_len(v, width);
    lemma_be_round_trip(v, width);
    assert((be_bytes(v, width) + tail).take(width as int) =~= be_bytes(v, width));
}

/// Reads an unsigned integer of `width` bytes, most significant first, at the
/// cursor, and moves the cursor past it.
fn compose_uint(source: &[u8], position: &mut usize, width: usize) -> (r: Result<u128, BinaryError>)
    requires
        1 <= width <= 16,
    ensures
        rest(source@, *old(position) as int).len() < width ==> r == Err::<u128, BinaryError>(
            BinaryError::EndOfInput,
        ) && *final(position) == *old(position),
        rest(source@, *old(position) as int).len() >= width ==> r == Ok::<u128, BinaryError>(
            be_value(rest(source@, *old(position) as int).take(width as int)) as u128,
        ) && *final(position) == *old(position) + width,
{
    let s = rest_slice(source, *position);
    if s.len() < width {
        return Err(BinaryError::EndOfInput);
    }
    let v = read_be(s, width);
    let len = source.len();
    assert(*position + s@.len() == len);
    *position = *position + width;
    Ok(v)
}

impl Streamable for u8 {
    open spec fn spec_wire(m: u8) -> Result<Seq<u8>, BinaryError> {
        Ok(be_bytes(m as nat, 1))
    }

    open spec fn spec_read(s: Seq<u8>) -> Result<(u8, nat), BinaryError> {
        if s.len() < 1 {
            Err(BinaryError::EndOfInput)
        } else {
            Ok((be_value(s.take(1)) as u8, 1))
        }
    }

    open spec fn spec_size() -> Option<nat> {
        Some(1)
    }

    open spec fn spec_delimited() -> bool {
        true
    }

    proof fn lemma_read_within(s: Seq<u8>) {
    }

    proof fn lemma_round_trip(m: u8, tail: Seq<u8>) {
        lemma_byte_caps();
        lemma_uint_round_trip(m as nat, 1, tail);
    }

    proof fn lemma_size(m: u8, s: Seq<u8>) {
        lemma_be_bytes_len(m as nat, 1);
    }

    fn fixed_size() -> (r: Option<usize>) {
        Some(1)
    }

    fn parse(&self) -> (r: Result<Vec<u8>, BinaryError>) {
        proof {
            lemma_byte_caps();
        }
        Ok(write_be(*self as u128, 1))
    }

    fn compose(source: &[u8], position: &mut usize) -> (r: Result<u8, BinaryError>) {
        proof {
            lemma_byte_caps();
            let s = rest(source@, *position as int);
            if s.len() >= 1 {
                lemma_be_value_bound(s.take(1));
            }
        }
        match compose_uint(source, position, 1) {
            Ok(v) => Ok(v as u8),
            Err(e) => Err(e),
        }
    }
}

impl Primitive for u8 {
    proof fn lemma_primitive(m: u8) {
    }
}

impl Streamable for u16 {
    open spec fn spec_wire(m: u16) -> Result<Seq<u8>, BinaryError> {
        Ok(be_bytes(m as nat, 2))
    }

    open spec fn spec_read(s: Seq<u8>) -> Result<(u16, nat), BinaryError> {
        if s.len() < 2 {
            Err(BinaryError::EndOfInput)
        } else {
            Ok((be_value(s.take(2)) as u16, 2))
        }
    }

    open spec fn spec_size() -> Option<nat> {
        Some(2)
    }

    open spec fn spec_delimited() -> bool {
        true
    }

    proof fn lemma_read_within(s: Seq<u8>) {
    }

    proof fn lemma_round_trip(m: u16, tail: Seq<u8>) {
        lemma_byte_caps();
        lemma_uint_round_trip(m as nat, 2, tail);
    }

    proof fn lemma_size(m: u16, s: Seq<u8>) {
        lemma_be_bytes_len(m as nat, 2);
    }

    fn fixed_size() -> (r: Option<usize>) {
        Some(2)
    }

    fn parse(&self) -> (r: Result<Vec<u8>, BinaryError>) {
        proof {
            lemma_byte_caps();
        }
        Ok(write_be(*self as u128, 2))
    }

    fn compose(source: &[u8], position: &mut usize) -> (r: Result<u16, BinaryError>) {
        proof {
            lemma_byte_caps();
            let s = rest(source@, *position as int);
            if s.len() >= 2 {
                lemma_be_value_bound(s.take(2));
            }
        }
        match compose_uint(source, position, 2) {
            Ok(v) => Ok(v as u16),
            Err(e) => Err(e),
        }
    }
}

impl Primitive for u16 {
    proof fn lemma_primitive(m: u16) {
    }
}

impl Streamable for u32 {
    open spec fn spec_wire(m: u32) -> Result<Seq<u8>, BinaryError> {
        Ok(be_bytes(m as nat, 4))
    }

    open spec fn spec_read(s: Seq<u8>) -> Result<(u32, nat), BinaryError> {
        if s.len() < 4 {
            Err(BinaryError::EndOfInput)
        } else {
            Ok((be_value(s.take(4)) as u32, 4))
        }
    }

    open spec fn spec_size() -> Option<nat> {
        Some(4)
    }

    open spec fn spec_delimited() -> bool {
        true
    }

    proof fn lemma_read_within(s: Seq<u8>) {
    }

    proof fn lemma_round_trip(m: u32, tail: Seq<u8>) {
        lemma_byte_caps();
        lemma_uint_round_trip(m as nat, 4, tail);
    }

    proof fn lemma_size(m: u32, s: Seq<u8>) {
        lemma_be_bytes_len(m as nat, 4);
    }

    fn fixed_size() -> (r: Option<usize>) {
        Some(4)
    }

    fn parse(&self) -> (r: Result<Vec<u8>, BinaryError>) {
        proof {
            lemma_byte_caps();
        }
        Ok(write_be(*self as u128, 4))
    }

    fn compose(source: &[u8], position: &mut usize) -> (r: Result<u32, BinaryError>) {
        proof {
            lemma_byte_caps();
            let s = rest(source@, *position as int);
            if s.len() >= 4 {
                lemma_be_value_bound(s.take(4));
            }
        }
        match compose_uint(source, position, 4) {
            Ok(v) => Ok(v as u32),
            Err(e) => Err(e),
        }
    }
}

impl Primitive for u32 {
    proof fn lemma_primitive(m: u32) {
    }
}

impl Streamable for u64 {
    open spec fn spec_wire(m: u64) -> Result<Seq<u8>, BinaryError> {
        Ok(be_bytes(m as nat, 8))
    }

    open spec fn spec_read(s: Seq<u8>) -> Result<(u64, nat), BinaryError> {
        if s.len() < 8 {
            Err(BinaryError::EndOfInput)
        } else {
            Ok((be_value(s.take(8)) as u64, 8))
        }
    }

    open spec fn spec_size() -> Option<nat> {
        Some(8)
    }

    open spec fn spec_delimited() -> bool {
        true
    }

    proof fn lemma_read_within(s: Seq<u8>) {
    }

    proof fn lemma_round_trip(m: u64, tail: Seq<u8>) {
        lemma_byte_caps();
        lemma_uint_round_trip(m as nat, 8, tail);
    }

    proof fn lemma_size(m: u64, s: Seq<u8>) {
        lemma_be_bytes_len(m as nat, 8);
    }

    fn fixed_size() -> (r: Option<usize>) {
        Some(8)
    }

    fn parse(&self) -> (r: Result<Vec<u8>, BinaryError>) {
        proof {
            lemma_byte_caps();
        }
        Ok(write_be(*self as u128, 8))
    }

    fn compose(source: &[u8], position: &mut usize) -> (r: Result<u64, BinaryError>) {
        proof {
            lemma_byte_caps();
            let s = rest(source@, *position as int);
            if s.len() >= 8 {
                lemma_be_value_bound(s.take(8));
            }
        }
        match compose_uint(source, position, 8) {
            Ok(v) => Ok(v as u64),
            Err(e) => Err(e),
        }
    }
}

impl Primitive for u64 {
    proof fn lemma_primitive(m: u64) {
    }
}

impl Streamable for u128 {
    open spec fn spec_wire(m: u128) -> Result<Seq<u8>, BinaryError> {
        Ok(be_bytes(m as nat, 16))
    }

    open spec fn spec_read(s: Seq<u8>) -> Result<(u128, nat), BinaryError> {
        if s.len() < 16 {
            Err(BinaryError::EndOfInput)
        } else {
            Ok((be_value(s.take(16)) as u128, 16))
        }
    }

    open spec fn spec_size() -> Option<nat> {
        Some(16)
    }

    open spec fn spec_delimited() -> bool {
        true
    }

    proof fn lemma_read_within(s: Seq<u8>) {
    }

    proof fn lemma_round_trip(m: u128, tail: Seq<u8>) {
        lemma_byte_caps();
        lemma_uint_round_trip(m as nat, 16, tail);
    }

    proof fn lemma_size(m: u128, s: Seq<u8>) {
        lemma_be_bytes_len(m as nat, 16);
    }

    fn fixed_size() -> (r: Option<usize>) {
        Some(16)
    }

    fn parse(&self) -> (r: Result<Vec<u8>, BinaryError>) {
        proof {
            lemma_byte_caps();
        }
        Ok(write_be(*self as u128, 16))
    }

    fn compose(source: &[u8], position: &mut usize) -> (r: Result<u128, BinaryError>) {
        proof {
            lemma_byte_caps();
            let s = rest(source@, *position as int);
            if s.len() >= 16 {
                lemma_be_value_bound(s.take(16));
            }
        }
        match compose_uint(source, position, 16) {
            Ok(v) => Ok(v as u128),
            Err(e) => Err(e),
        }
    }
}

impl Primitive for u128 {
    proof fn lemma_primitive(m: u128) {
    }
}

impl Streamable for i8 {
    /// The two's complement bits, as the unsigned integer of the same width.
    open spec fn spec_wire(m: i8) -> Result<Seq<u8>, BinaryError> {
        Ok(be_bytes((m as u8) as nat, 1))
    }

    open spec fn spec_read(s: Seq<u8>) -> Result<(i8, nat), BinaryError> {
        if s.len() < 1 {
            Err(BinaryError::EndOfInput)
        } else {
            Ok(((be_value(s.take(1)) as u8) as i8, 1))
        }
    }

    open spec fn spec_size() -> Option<nat> {
        Some(1)
    }

    open spec fn spec_delimited() -> bool {
        true
    }

    proof fn lemma_read_within(s: Seq<u8>) {
    }

    proof fn lemma_round_trip(m: i8, tail: Seq<u8>) {
        lemma_byte_caps();
        lemma_uint_round_trip((m as u8) as nat, 1, tail);
        assert((m as u8) as i8 == m) by (bit_vector);
    }

    proof fn lemma_size(m: i8, s: Seq<u8>) {
        lemma_be_bytes_len((m as u8) as nat, 1);
    }

    fn fixed_size() -> (r: Option<usize>) {
        Some(1)
    }

    fn parse(&self) -> (r: Result<Vec<u8>, BinaryError>) {
        proof {
            lemma_byte_caps();
        }
        Ok(write_be((*self as u8) as u128, 1))
    }

    fn compose(source: &[u8], position: &mut usize) -> (r: Result<i8, BinaryError>) {
        proof {
            lemma_byte_caps();
            let s = rest(source@, *position as int);
            if s.len() >= 1 {
                lemma_be_value_bound(s.take(1));
            }
        }
        match compose_uint(source, position, 1) {
            Ok(v) => Ok((v as u8) as i8),
            Err(e) => Err(e),
        }
    }
}

impl Primitive for i8 {
    proof fn lemma_primitive(m: i8) {
    }
}

impl Streamable for i16 {
    /// The two's complement bits, as the unsigned integer of the same width.
    open spec fn spec_wire(m: i16) -> Result<Seq<u8>, BinaryError> {
        Ok(be_bytes((m as u16) as nat, 2))
    }

    open spec fn spec_read(s: Seq<u8>) -> Result<(i16, nat), BinaryError> {
        if s.len() < 2 {
            Err(BinaryError::EndOfInput)
        } else {
            Ok(((be_value(s.take(2)) as u16) as i16, 2))
        }
    }

    open spec fn spec_size() -> Option<nat> {
        Some(2)
    }

    open spec fn spec_delimited() -> bool {
        true
    }

    proof fn lemma_read_within(s: Seq<u8>) {
    }

    proof fn lemma_round_trip(m: i16, tail: Seq<u8>) {
        lemma_byte_caps();
        lemma_uint_round_trip((m as u16) as nat, 2, tail);
        assert((m as u16) as i16 == m) by (bit_vector);
    }

    proof fn lemma_size(m: i16, s: Seq<u8>) {
        lemma_be_bytes_len((m as u16) as nat, 2);
    }

    fn fixed_size() -> (r: Option<usize>) {
        Some(2)
    }

    fn parse(&self) -> (r: Result<Vec<u8>, BinaryError>) {
        proof {
            lemma_byte_caps();
        }
        Ok(write_be((*self as u16) as u128, 2))
    }

    fn compose(source: &[u8], position: &mut usize) -> (r: Result<i16, BinaryError>) {
        proof {
            lemma_byte_caps();
            let s = rest(source@, *position as int);
            if s.len() >= 2 {
                lemma_be_value_bound(s.take(2));
            }
        }
        match compose_uint(source, position, 2) {
            Ok(v) => Ok((v as u16) as i16),
            Err(e) => Err(e),
        }
    }
}

impl Primitive for i16 {
    proof fn lemma_primitive(m: i16) {
    }
}

impl Streamable for i32 {
    /// The two's complement bits, as the unsigned integer of the same width.
    open spec fn spec_wire(m: i32) -> Result<Seq<u8>, BinaryError> {
        Ok(be_bytes((m as u32) as nat, 4))
    }

    open spec fn spec_read(s: Seq<u8>) -> Result<(i32, nat), BinaryError> {
        if s.len() < 4 {
            Err(BinaryError::EndOfInput)
        } else {
            Ok(((be_value(s.take(4)) as u32) as i32, 4))
        }
    }

    open spec fn spec_size() -> Option<nat> {
        Some(4)
    }

    open spec fn spec_delimited() -> bool {
        true
    }

    proof fn lemma_read_within(s: Seq<u8>) {
    }

    proof fn lemma_round_trip(m: i32, tail: Seq<u8>) {
        lemma_byte_caps();
        lemma_uint_round_trip((m as u32) as nat, 4, tail);
        assert((m as u32) as i32 == m) by (bit_vector);
    }

    proof fn lemma_size(m: i32, s: Seq<u8>) {
        lemma_be_bytes_len((m as u32) as nat, 4);
    }

    fn fixed_size() -> (r: Option<usize>) {
        Some(4)
    }

    fn parse(&self) -> (r: Result<Vec<u8>, BinaryError>) {
        proof {
            lemma_byte_caps();
        }
        Ok(write_be((*self as u32) as u128, 4))
    }

    fn compose(source: &[u8], position: &mut usize) -> (r: Result<i32, BinaryError>) {
        proof {
            lemma_byte_caps();
            let s = rest(source@, *position as int);
            if s.len() >= 4 {
                lemma_be_value_bound(s.take(4));
            }
        }
        match compose_uint(source, position, 4) {
            Ok(v) => Ok((v as u32) as i32),
            Err(e) => Err(e),
        }
    }
}

impl Primitive for i32 {
    proof fn lemma_primitive(m: i32) {
    }
}

impl Streamable for i64 {
    /// The two's complement bits, as the unsigned integer of the same width.
    open spec fn spec_wire(m: i64) -> Result<Seq<u8>, BinaryError> {
        Ok(be_bytes((m as u64) as nat, 8))
    }

    open spec fn spec_read(s: Seq<u8>) -> Result<(i64, nat), BinaryError> {
        if s.len() < 8 {
            Err(BinaryError::EndOfInput)
        } else {
            Ok(((be_value(s.take(8)) as u64) as i64, 8))
        }
    }

    open spec fn spec_size() -> Option<nat> {
        Some(8)
    }

    open spec fn spec_delimited() -> bool {
        true
    }

    proof fn lemma_read_within(s: Seq<u8>) {
    }

    proof fn lemma_round_trip(m: i64, tail: Seq<u8>) {
        lemma_byte_caps();
        lemma_uint_round_trip((m as u64) as nat, 8, tail);
        assert((m as u64) as i64 == m) by (bit_vector);
    }

    proof fn lemma_size(m: i64, s: Seq<u8>) {
        lemma_be_bytes_len((m as u64) as nat, 8);
    }

    fn fixed_size() -> (r: Option<usize>) {
        Some(8)
    }

    fn parse(&self) -> (r: Result<Vec<u8>, BinaryError>) {
        proof {
            lemma_byte_caps();
        }
        Ok(write_be((*self as u64) as u128, 8))
    }

    fn compose(source: &[u8], position: &mut usize) -> (r: Result<i64, BinaryError>) {
        proof {
            lemma_byte_caps();
            let s = rest(source@, *position as int);
            if s.len() >= 8 {
                lemma_be_value_bound(s.take(8));
            }
        }
        match compose_uint(source, position, 8) {
            Ok(v) => Ok((v as u64) as i64),
            Err(e) => Err(e),
        }
    }
}

impl Primitive for i64 {
    proof fn lemma_primitive(m: i64) {
    }
}

impl Streamable for i128 {
    /// The two's complement bits, as the unsigned integer of the same width.
    open spec fn spec_wire(m: i128) -> Result<Seq<u8>, BinaryError> {
        Ok(be_bytes((m as u128) as nat, 16))
    }

    open spec fn spec_read(s: Seq<u8>) -> Result<(i128, nat), BinaryError> {
        if s.len() < 16 {
            Err(BinaryError::EndOfInput)
        } else {
            Ok(((be_value(s.take(16)) as u128) as i128, 16))
        }
    }

    open spec fn spec_size() -> Option<nat> {
        Some(16)
    }

    open spec fn spec_delimited() -> bool {
        true
    }

    proof fn lemma_read_within(s: Seq<u8>) {
    }

    proof fn lemma_round_trip(m: i128, tail: Seq<u8>) {
        lemma_byte_caps();
        lemma_uint_round_trip((m as u128) as nat, 16, tail);
        assert((m as u128) as i128 == m) by (bit_vector);
    }

    proof fn lemma_size(m: i128, s: Seq<u8>) {
        lemma_be_bytes_len((m as u128) as nat, 16);
    }

    fn fixed_size() -> (r: Option<usize>) {
        Some(16)
    }

    fn parse(&self) -> (r: Result<Vec<u8>, BinaryError>) {
        proof {
            lemma_byte_caps();
        }
        Ok(write_be((*self as u128) as u128, 16))
    }

    fn compose(source: &[u8], position: &mut usize) -> (r: Result<i128, BinaryError>) {
        proof {
            lemma_byte_caps();
            let s = rest(source@, *position as int);
            if s.len() >= 16 {
                lemma_be_value_bound(s.take(16));
            }
        }
        match compose_uint(source, position, 16) {
            Ok(v) => Ok((v as u128) as i128),
            Err(e) => Err(e),
        }
    }
}

impl Primitive for i128 {
    proof fn lemma_primitive(m: i128) {
    }
}

impl Streamable for bool {
    /// One byte: 1 for true, 0 for false.
    open spec fn spec_wire(m: bool) -> Result<Seq<u8>, BinaryError> {
        Ok(seq![if m { 1u8 } else { 0u8 }])
    }

    /// Any byte but 0 and 1 is refused.
    open spec fn spec_read(s: Seq<u8>) -> Result<(bool, nat), BinaryError> {
        if s.len() == 0 {
            Err(BinaryError::EndOfInput)
        } else if s[0] == 0 {
            Ok((false, 1))
        } else if s[0] == 1 {
            Ok((true, 1))
        } else {
            Err(BinaryError::NonBinaryByte(s[0]))
        }
    }

    open spec fn spec_size() -> Option<nat> {
        Some(1)
    }

    open spec fn spec_delimited() -> bool {
        true
    }

    proof fn lemma_read_within(s: Seq<u8>) {
    }

    proof fn lemma_round_trip(m: bool, tail: Seq<u8>) {
    }

    proof fn lemma_size(m: bool, s: Seq<u8>) {
    }

    fn fixed_size() -> (r: Option<usize>) {
        Some(1)
    }

    fn parse(&self) -> (r: Result<Vec<u8>, BinaryError>) {
        Ok(vec![if *self { 1u8 } else { 0u8 }])
    }

    fn compose(source: &[u8], position: &mut usize) -> (r: Result<bool, BinaryError>) {
        let s = rest_slice(source, *position);
        if s.len() == 0 {
            return Err(BinaryError::EndOfInput);
        }
        let b = s[0];
        if b > 1 {
            return Err(BinaryError::NonBinaryByte(b));
        }
        let len = source.len();
        assert(*position + s@.len() == len);
        *position = *position + 1;
        Ok(b == 1)
    }
}

} // verus!
