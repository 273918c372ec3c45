//! The byte-level vocabulary shared by every codec: big-endian integers,
//! positions in a source, and the outside calls that read and write them.
use vstd::prelude::*;
use vstd::utf8::*;
use byteorder::{BigEndian, ByteOrder};

verus! {

/// 256 to the power `n`: one more than the largest value that `n` bytes hold.
pub open spec fn byte_cap(n: nat) -> nat
    decreases n,
{
    if n == 0 {
        1
    } else {
        256 * byte_cap((n - 1) as nat)
    }
}

/// The value of `s` read most significant byte first.
pub open spec fn be_value(s: Seq<u8>) -> nat
    decreases s.len(),
{
    if s.len() == 0 {
        0
    } else {
        be_value(s.drop_last()) * 256 + s.last() as nat
    }
}

/// The low `n` bytes of `v`, most significant first.
pub open spec fn be_bytes(v: nat, n: nat) -> Seq<u8>
    decreases n,
{
    if n == 0 {
        Seq::empty()
    } else {
        be_bytes(v / 256, (n - 1) as nat).push((v % 256) as u8)
    }
}

/// The bytes of `s` from position `p` on; nothing where `p` lies past the end.
pub open spec fn rest(s: Seq<u8>, p: int) -> Seq<u8> {
    if 0 <= p <= s.len() {
        s.subrange(p, s.len() as int)
    } else {
        Seq::empty()
    }
}

/// `be_bytes(v, n)` has `n` bytes.
pub proof fn lemma_be_bytes_len(v: nat, n: nat)
    ensures
        be_bytes(v, n).len() == n,
    decreases n,
{
    if n > 0 {
        lemma_be_bytes_len(v / 256, (n - 1) as nat);
    }
}

/// Reading back the `n` bytes of a value that fits them gives the value.
pub proof fn lemma_be_round_trip(v: nat, n: nat)
    requires
        v < byte_cap(n),
    ensures
        be_value(be_bytes(v, n)) == v,
    decreases n,
{
    if n > 0 {
        let c = byte_cap((n - 1) as nat);
        assert(v / 256 < c) by (nonlinear_arith)
            requires
                v < 256 * c,
        ;
        lemma_be_round_trip(v / 256, (n - 1) as nat);
        let b = be_bytes(v, n);
        assert(b.drop_last() =~= be_bytes(v / 256, (n - 1) as nat));
        assert((v / 256) * 256 + v % 256 == v) by (nonlinear_arith);
    }
}

/// What `s` holds, read most significant first, fits `s.len()` bytes.
pub proof fn lemma_be_value_bound(s: Seq<u8>)
    ensures
        be_value(s) < byte_cap(s.len()),
    decreases s.len(),
{
    if s.len() > 0 {
        lemma_be_value_bound(s.drop_last());
        let a = be_value(s.drop_last());
        let c = byte_cap((s.len() - 1) as nat);
        let l = s.last() as nat;
        assert(a * 256 + l < 256 * c) by (nonlinear_arith)
            requires
                a < c,
                l < 256,
        ;
    }
}

/// The capacities of the widths that the integer codecs use.
pub proof fn lemma_byte_caps()
    ensures
        byte_cap(1) == 0x100,
        byte_cap(2) == 0x1_0000,
        byte_cap(4) == 0x1_0000_0000,
        byte_cap(8) == 0x1_0000_0000_0000_0000,
        byte_cap(16) == 0x1_0000_0000_0000_0000_0000_0000_0000_0000,
{
    reveal_with_fuel(byte_cap, 17);
}

/// The bytes of `source` from `p` on.
pub(crate) fn rest_slice(source: &[u8], p: usize) -> (r: &[u8])
    ensures
        r@ == rest(source@, p as int),
{
    if p <= source.len() {
        vstd::slice::slice_subrange(source, p, source.len())
    } else {
        vstd::slice::slice_subrange(source, 0, 0)
    }
}

/// The unsigned integer that `width` bytes of `source` at `at` hold,
/// most significant byte first.
pub(crate) fn read_field(source: &[u8], at: usize, width: usize) -> (r: u128)
    requires
        1 <= width <= 16,
        at + width <= source@.len(),
    ensures
        r == be_value(source@.subrange(at as int, at + width)),
{
    let len = source.len();
    assert(at + width <= len);
    let s = vstd::slice::slice_subrange(source, at, at + width);
    assert(s@.take(width as int) =~= s@);
    read_be(s, width)
}

/// Relies on byteorder's `BigEndian::read_uint128`: the first `nbytes` bytes
/// of `buf` as an unsigned integer, most significant byte first.
#[verifier::external_body]
pub(crate) fn read_be(buf: &[u8], nbytes: usize) -> (r: u128)
    requires
        1 <= nbytes <= 16,
        nbytes <= buf@.len(),
    ensures
        r == be_value(buf@.take(nbytes as int)),
{
    BigEndian::read_uint128(buf, nbytes)
}

/// Relies on byteorder's `BigEndian::write_uint128`: `n` written in `nbytes`
/// bytes, most significant byte first.
#[verifier::external_body]
pub(crate) fn write_be(n: u128, nbytes: usize) -> (r: Vec<u8>)
    requires
        1 <= nbytes <= 16,
        n < byte_cap(nbytes as nat),
    ensures
        r@ == be_bytes(n as nat, nbytes as nat),
{
    let mut buf = vec![0u8; nbytes];
    BigEndian::write_uint128(&mut buf, n, nbytes);
    buf
}

/// Relies on `std::str::from_utf8`: a text exactly when the bytes are valid
/// UTF-8, and then the text whose UTF-8 bytes they are.
#[verifier::external_body]
pub(crate) fn utf8_text(b: &[u8]) -> (r: Option<&str>)
    ensures
        r is Some <==> valid_utf8(b@),
        r matches Some(s) ==> encode_utf8(s@) == b@,
{
    std::str::from_utf8(b).ok()
}

} // verus!
