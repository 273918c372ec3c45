//! Strings, and the little-endian adapter that reverses the canonical bytes
//! of the value it wraps.
use vstd::prelude::*;
use vstd::utf8::{decode_utf8, encode_utf8, encode_utf8_decode_utf8, encode_utf8_valid_utf8, valid_utf8};
use crate::codec::Streamable;
use crate::error::BinaryError;
use crate::wire::{
    be_bytes, be_value, lemma_be_bytes_len, lemma_be_round_trip, lemma_be_value_bound,
    lemma_byte_caps, read_be, rest, rest_slice, utf8_text, write_be,
};

verus! {

/// The length of a reversed sequence, and where each element went.
pub proof fn lemma_reverse<A>(s: Seq<A>)
    ensures
        s.reverse().len() == s.len(),
        forall|i: int| 0 <= i < s.len() ==> #[trigger] s.reverse()[i] == s[s.len() - 1 - i],
        s.reverse().reverse() == s,
{
    assert(s.reverse().reverse() =~= s);
}

/// The bytes of `b` in reverse order.
pub(crate) fn reverse_bytes(b: &[u8]) -> (r: Vec<u8>)
    ensures
        r@ == b@.reverse(),
{
    let mut out: Vec<u8> = Vec::new();
    let mut i: usize = b.len();
    proof {
        lemma_reverse(b@);
    }
    while i > 0
        invariant
            i <= b@.len(),
            out@ =~= b@.subrange(i as int, b@.len() as int).reverse(),
        decreases i,
    {
        proof {
            lemma_reverse(b@.subrange(i as int, b@.len() as int));
            lemma_reverse(b@.subrange(i - 1, b@.len() as int));
        }
        i = i - 1;
        out.push(b[i]);
        assert(out@ =~= b@.subrange(i as int, b@.len() as int).reverse());
    }
    assert(b@.subrange(0, b@.len() as int) =~= b@);
    out
}

/// Reverses the bytes in a given vector.
pub fn reverse_vec(bytes: Vec<u8>) -> (r: Vec<u8>)
    ensures
        r@ == bytes@.reverse(),
{
    reverse_bytes(bytes.as_slice())
}

/// A value whose wire bytes are little-endian: the reverse of the canonical
/// big-endian bytes of the value it wraps.
#[derive(Debug, Clone, Copy)]
pub struct LE<T>(pub T);

impl<T> LE<T> {
    /// The wrapped value.
    pub fn inner(self) -> (r: T)
        ensures
            r == self.0,
    {
        self.0
    }
}

impl<T: DeepView> DeepView for LE<T> {
    type V = T::V;

    open spec fn deep_view(&self) -> T::V {
        self.0.deep_view()
    }
}

/// A value whose wire bytes are big-endian, the canonical order.
pub struct BE<T>(pub T);

impl<T: Streamable> Streamable for LE<T> {
    open spec fn spec_wire(m: T::V) -> Result<Seq<u8>, BinaryError> {
        match T::spec_wire(m) {
            Ok(w) => Ok(w.reverse()),
            Err(e) => Err(e),
        }
    }

    /// A type of fixed size takes that many bytes, reversed; any other type
    /// takes the rest of the source.
    open spec fn spec_read(s: Seq<u8>) -> Result<(T::V, nat), BinaryError> {
        match T::spec_size() {
            Some(k) => if s.len() < k {
                Err(BinaryError::EndOfInput)
            } else {
                T::spec_read(s.take(k as int).reverse())
            },
            None => T::spec_read(s.reverse()),
        }
    }

    open spec fn spec_size() -> Option<nat> {
        T::spec_size()
    }

    open spec fn spec_delimited() -> bool {
        T::spec_size() is Some
    }

    proof fn lemma_read_within(s: Seq<u8>) {
        match T::spec_size() {
            Some(k) => {
                if s.len() >= k {
                    lemma_reverse(s.take(k as int));
                    T::lemma_read_within(s.take(k as int).reverse());
                }
            },
            None => {
                lemma_reverse(s);
                T::lemma_read_within(s.reverse());
            },
        }
    }

    proof fn lemma_round_trip(m: T::V, tail: Seq<u8>) {
        if let Ok(w) = T::spec_wire(m) {
            T::lemma_round_trip(m, Seq::empty());
            assert(w + Seq::<u8>::empty() =~= w);
            lemma_reverse(w);
            match T::spec_size() {
                Some(k) => {
                    T::lemma_size(m, w);
                    assert((w.reverse() + tail).take(k as int) =~= w.reverse());
                },
                None => {
                    assert(w.reverse() + tail =~= w.reverse());
                },
            }
        }
    }

    proof fn lemma_size(m: T::V, s: Seq<u8>) {
        if let Some(k) = T::spec_size() {
            T::lemma_size(m, s);
            if let Ok(w) = T::spec_wire(m) {
                lemma_reverse(w);
            }
            if s.len() >= k {
                T::lemma_size(m, s.take(k as int).reverse());
            }
        }
    }

    fn fixed_size() -> (r: Option<usize>) {
        T::fixed_size()
    }

    fn parse(&self) -> (r: Result<Vec<u8>, BinaryError>) {
        match self.0.parse() {
            Ok(b) => Ok(reverse_vec(b)),
            Err(e) => Err(e),
        }
    }

    /// The reversed span is decoded on its own; the cursor still moves over
    /// `source` by what the wrapped type consumed.
    fn compose(source: &[u8], position: &mut usize) -> (r: Result<LE<T>, BinaryError>) {
        let s = rest_slice(source, *position);
        let span = match T::fixed_size() {
            Some(k) => {
                if s.len() < k {
                    return Err(BinaryError::EndOfInput);
                }
                reverse_bytes(vstd::slice::slice_subrange(s, 0, k))
            },
            None => reverse_bytes(s),
        };
        assert(rest(span@, 0) =~= span@);
        proof {
            lemma_reverse(s@);
            T::lemma_read_within(span@);
            if let Some(k) = T::spec_size() {
                lemma_reverse(s@.take(k as int));
            }
        }
        let mut at: usize = 0;
        match T::compose(span.as_slice(), &mut at) {
            Ok(v) => {
                let len = source.len();
                assert(s@.len() == 0 || *position + s@.len() == len);
                *position = *position + at;
                Ok(LE(v))
            },
            Err(e) => Err(e),
        }
    }
}

/// For a type of fixed size, the little-endian encoding is the canonical one
/// reversed, and decoding reversed bytes through the adapter gives what the
/// canonical bytes give.
pub proof fn lemma_endianness_inversion<T: Streamable>(m: T::V, tail: Seq<u8>)
    requires
        T::spec_size() is Some,
    ensures
        T::spec_wire(m) matches Ok(w) ==> LE::<T>::spec_wire(m) == Ok::<Seq<u8>, BinaryError>(
            w.reverse(),
        ) && LE::<T>::spec_read(w.reverse() + tail) == T::spec_read(w + tail),
        LE::<T>::spec_wire(m) matches Ok(v) ==> T::spec_wire(m) == Ok::<Seq<u8>, BinaryError>(
            v.reverse(),
        ),
{
    T::lemma_size(m, tail);
    LE::<T>::lemma_round_trip(m, tail);
    T::lemma_round_trip(m, tail);
    if let Ok(w) = T::spec_wire(m) {
        lemma_reverse(w);
    }
}

impl Streamable for String {
    /// The UTF-8 bytes after their count as a big-endian `u16`.
    open spec fn spec_wire(m: Seq<char>) -> Result<Seq<u8>, BinaryError> {
        let b = encode_utf8(m);
        if b.len() > 0xffff {
            Err(BinaryError::TooLong)
        } else {
            Ok(be_bytes(b.len(), 2) + b)
        }
    }

    open spec fn spec_read(s: Seq<u8>) -> Result<(Seq<char>, nat), BinaryError> {
        if s.len() < 2 {
            Err(BinaryError::EndOfInput)
        } else {
            let n = be_value(s.take(2));
            if s.len() < 2 + n {
                Err(BinaryError::EndOfInput)
            } else if !valid_utf8(s.subrange(2, 2 + n as int)) {
                Err(BinaryError::InvalidUtf8)
            } else {
                Ok((decode_utf8(s.subrange(2, 2 + n as int)), 2 + n))
            }
        }
    }

    open spec fn spec_size() -> Option<nat> {
        None
    }

    open spec fn spec_delimited() -> bool {
        true
    }

    proof fn lemma_read_within(s: Seq<u8>) {
    }

    proof fn lemma_round_trip(m: Seq<char>, tail: Seq<u8>) {
        let b = encode_utf8(m);
        if b.len() <= 0xffff {
            lemma_byte_caps();
            lemma_be_bytes_len(b.len(), 2);
            lemma_be_round_trip(b.len(), 2);
            let s = be_bytes(b.len(), 2) + b + tail;
            assert(s.take(2) =~= be_bytes(b.len(), 2));
            assert(s.subrange(2, 2 + b.len() as int) =~= b);
            encode_utf8_valid_utf8(m);
            encode_utf8_decode_utf8(m);
        }
    }

    proof fn lemma_size(m: Seq<char>, s: Seq<u8>) {
    }

    fn fixed_size() -> (r: Option<usize>) {
        None
    }

    fn parse(&self) -> (r: Result<Vec<u8>, BinaryError>) {
        let b = self.as_str().as_bytes();
        if b.len() > 0xffff {
            return Err(BinaryError::TooLong);
        }
        proof {
            lemma_byte_caps();
        }
        let mut out = write_be(b.len() as u128, 2);
        let mut body = vstd::slice::slice_to_vec(b);
        out.append(&mut body);
        Ok(out)
    }

    fn compose(source: &[u8], position: &mut usize) -> (r: Result<String, BinaryError>) {
        let s = rest_slice(source, *position);
        if s.len() < 2 {
            return Err(BinaryError::EndOfInput);
        }
        proof {
            lemma_byte_caps();
            lemma_be_value_bound(s@.take(2));
        }
        let n = read_be(s, 2) as usize;
        if s.len() - 2 < n {
            return Err(BinaryError::EndOfInput);
        }
        let body = vstd::slice::slice_subrange(s, 2, 2 + n);
        match utf8_text(body) {
            None => Err(BinaryError::InvalidUtf8),
            Some(t) => {
                proof {
                    encode_utf8_decode_utf8(t@);
                }
                let len = source.len();
                assert(*position + s@.len() == len);
                *position = *position + 2 + n;
                Ok(t.to_owned())
            },
        }
    }
}

} // verus!
