//! Sequences: a count prefix, then each element's encoding in order. A
//! sequence of primitives counts with a variable-length integer; a sequence
//! of little-endian values counts with a big-endian `u16`.
use vstd::prelude::*;
use crate::codec::Streamable;
use crate::composite::LE;
use crate::error::BinaryError;
use crate::primitives::Primitive;
use crate::varint::{
    compose_var_int, lemma_group_caps, lemma_varint_read_bound, lemma_varint_round_trip,
    var_int_bytes, varint_bytes, varint_read, VAR_INT_MAX_BYTES,
};
use crate::wire::{be_bytes, lemma_byte_caps, rest};

verus! {

/// The encodings of `ms` one after another, or the first error among them.
pub open spec fn wires<T: Streamable>(ms: Seq<T::V>) -> Result<Seq<u8>, BinaryError>
    decreases ms.len(),
{
    if ms.len() == 0 {
        Ok(Seq::empty())
    } else {
        match T::spec_wire(ms[0]) {
            Err(e) => Err(e),
            Ok(w) => match wires::<T>(ms.drop_first()) {
                Ok(b) => Ok(w + b),
                Err(e) => Err(e),
            },
        }
    }
}

/// `count` values decoded one after another from the front of `s`, with the
/// bytes they take, or the first error.
pub open spec fn read_seq<T: Streamable>(s: Seq<u8>, count: nat) -> Result<
    (Seq<T::V>, nat),
    BinaryError,
>
    decreases count,
{
    if count == 0 {
        Ok((Seq::empty(), 0))
    } else {
        match T::spec_read(s) {
            Err(e) => Err(e),
            Ok((v, n)) => match read_seq::<T>(rest(s, n as int), (count - 1) as nat) {
                Ok((vs, k)) => Ok((seq![v] + vs, n + k)),
                Err(e) => Err(e),
            },
        }
    }
}

/// `r` after `acc` already decoded in `k` bytes.
pub open spec fn after<V>(acc: Seq<V>, k: nat, r: Result<(Seq<V>, nat), BinaryError>) -> Result<
    (Seq<V>, nat),
    BinaryError,
> {
    match r {
        Ok((vs, m)) => Ok((acc + vs, k + m)),
        Err(e) => Err(e),
    }
}

/// Encoding one more value appends its encoding to the run.
proof fn lemma_wires_push<T: Streamable>(ms: Seq<T::V>, m: T::V)
    ensures
        wires::<T>(ms.push(m)) == match wires::<T>(ms) {
            Err(e) => Err(e),
            Ok(b) => match T::spec_wire(m) {
                Ok(w) => Ok(b + w),
                Err(e) => Err(e),
            },
        },
    decreases ms.len(),
{
    assert(ms.push(m)[0] == if ms.len() == 0 { m } else { ms[0] });
    assert(wires::<T>(Seq::<T::V>::empty()) == Ok::<Seq<u8>, BinaryError>(Seq::empty()));
    if ms.len() == 0 {
        assert(ms.push(m).drop_first() =~= Seq::<T::V>::empty());
        if let Ok(w) = T::spec_wire(m) {
            assert(w + Seq::<u8>::empty() =~= Seq::<u8>::empty() + w);
        }
    } else {
        assert(ms.push(m).drop_first() =~= ms.drop_first().push(m));
        lemma_wires_push::<T>(ms.drop_first(), m);
        if let Ok(w0) = T::spec_wire(ms[0]) {
            if let Ok(b) = wires::<T>(ms.drop_first()) {
                if let Ok(w) = T::spec_wire(m) {
                    assert(w0 + (b + w) =~= (w0 + b) + w);
                }
            }
        }
    }
}

/// A run of decodes consumes no more than it was given; with a fixed size
/// it yields exactly `count` values in `count` sizes.
proof fn lemma_read_seq_len<T: Streamable>(s: Seq<u8>, count: nat)
    ensures
        read_seq::<T>(s, count) matches Ok((vs, n)) ==> {
            &&& n <= s.len()
            &&& vs.len() == count
            &&& T::spec_size() matches Some(k) ==> n == count * k
        },
    decreases count,
{
    if count > 0 {
        T::lemma_read_within(s);
        if let Ok((v, n)) = T::spec_read(s) {
            T::lemma_size(v, s);
            lemma_read_seq_len::<T>(rest(s, n as int), (count - 1) as nat);
            if let Some(k) = T::spec_size() {
                assert(k + (count - 1) * k == count * k) by (nonlinear_arith);
            }
        }
    }
}

/// Decoding the encodings of `ms` gives `ms` back, whatever follows them.
proof fn lemma_seq_round_trip<T: Streamable>(ms: Seq<T::V>, tail: Seq<u8>)
    requires
        T::spec_delimited(),
    ensures
        wires::<T>(ms) matches Ok(b) ==> read_seq::<T>(b + tail, ms.len()) == Ok::<
            (Seq<T::V>, nat),
            BinaryError,
        >((ms, b.len())),
    decreases ms.len(),
{
    if ms.len() == 0 {
        assert(ms =~= Seq::<T::V>::empty());
        assert(Seq::<u8>::empty() + tail =~= tail);
    } else {
        if let Ok(b) = wires::<T>(ms) {
            let w = T::spec_wire(ms[0])->Ok_0;
            let b2 = wires::<T>(ms.drop_first())->Ok_0;
            T::lemma_round_trip(ms[0], b2 + tail);
            assert(b + tail =~= w + (b2 + tail));
            assert(rest(b + tail, w.len() as int) =~= b2 + tail);
            lemma_seq_round_trip::<T>(ms.drop_first(), tail);
            assert(seq![ms[0]] + ms.drop_first() =~= ms);
        }
    }
}

/// The encodings of `items` one after another.
fn parse_all<T: Streamable>(items: &Vec<T>) -> (r: Result<Vec<u8>, BinaryError>)
    ensures
        match wires::<T>(items.deep_view()) {
            Ok(b) => r matches Ok(v) && v@ == b,
            Err(e) => r == Err::<Vec<u8>, BinaryError>(e),
        },
{
    let mut body: Vec<u8> = Vec::new();
    let mut i: usize = 0;
    let ghost ms = items.deep_view();
    assert(ms.take(0) =~= Seq::<T::V>::empty());
    while i < items.len()
        invariant
            i <= items@.len(),
            ms == items.deep_view(),
            wires::<T>(ms.take(i as int)) == Ok::<Seq<u8>, BinaryError>(body@),
        decreases items@.len() - i,
    {
        let x = &items[i];
        proof {
            lemma_wires_push::<T>(ms.take(i as int), ms[i as int]);
            assert(ms.take(i + 1) =~= ms.take(i as int).push(ms[i as int]));
        }
        match x.parse() {
            Ok(w) => {
                let mut w = w;
                body.append(&mut w);
            },
            Err(e) => {
                proof {
                    lemma_wires_prefix_err::<T>(ms, (i + 1) as nat);
                }
                return Err(e);
            },
        }
        i = i + 1;
    }
    assert(ms.take(i as int) =~= ms);
    Ok(body)
}

/// An error among the first `i` encodings is the error of the whole run.
proof fn lemma_wires_prefix_err<T: Streamable>(ms: Seq<T::V>, i: nat)
    requires
        i <= ms.len(),
        wires::<T>(ms.take(i as int)) is Err,
    ensures
        wires::<T>(ms) == wires::<T>(ms.take(i as int)),
    decreases i,
{
    if i > 0 && T::spec_wire(ms[0]) is Ok {
        assert(ms.take(i as int).drop_first() =~= ms.drop_first().take(i - 1));
        lemma_wires_prefix_err::<T>(ms.drop_first(), (i - 1) as nat);
    }
}

/// Decodes `count` values at the cursor, one after another, and moves the
/// cursor past them; on an error the cursor stays.
fn compose_all<T: Streamable>(source: &[u8], position: &mut usize, count: u64) -> (r: Result<
    Vec<T>,
    BinaryError,
>)
    ensures
        match read_seq::<T>(rest(source@, *old(position) as int), count as nat) {
            Ok((vs, n)) => r matches Ok(v) && v.deep_view() == vs && *final(position) == *old(
                position,
            ) + n,
            Err(e) => r == Err::<Vec<T>, BinaryError>(e) && *final(position) == *old(position),
        },
{
    let start = *position;
    let mut out: Vec<T> = Vec::new();
    let mut i: u64 = 0;
    let len = source.len();
    if start > len {
        assert(rest(source@, start as int) =~= rest(source@, len as int));
    }
    proof {
        assert(out.deep_view() =~= Seq::<T::V>::empty());
        assert(Seq::<T::V>::empty() + Seq::<T::V>::empty() =~= Seq::<T::V>::empty());
    }
    while i < count
        invariant
            start == *old(position),
            len == source@.len(),
            start <= len ==> start <= *position <= len,
            start > len ==> *position == start,
            i <= count,
            read_seq::<T>(rest(source@, start as int), count as nat) == after(
                out.deep_view(),
                (*position - start) as nat,
                read_seq::<T>(rest(source@, *position as int), (count - i) as nat),
            ),
        decreases count - i,
    {
        let ghost s = rest(source@, *position as int);
        let ghost p = *position;
        proof {
            T::lemma_read_within(s);
        }
        match T::compose(source, position) {
            Ok(v) => {
                proof {
                    let n = (*position - p) as nat;
                    assert(rest(s, n as int) =~= rest(source@, *position as int));
                    let ghost d0 = out.deep_view();
                    match read_seq::<T>(rest(source@, *position as int), (count - i - 1) as nat) {
                        Ok((vs, m)) => {
                            assert(d0 + (seq![v.deep_view()] + vs) =~= d0.push(v.deep_view())
                                + vs);
                        },
                        Err(e) => {},
                    }
                }
                let ghost d0 = out.deep_view();
                out.push(v);
                assert(out.deep_view() =~= d0.push(v.deep_view()));
                i = i + 1;
            },
            Err(e) => {
                *position = start;
                return Err(e);
            },
        }
    }
    assert(out.deep_view() + Seq::<T::V>::empty() =~= out.deep_view());
    Ok(out)
}

impl<T: Primitive> Streamable for Vec<T> {
    /// The count as a variable-length integer, then each element.
    open spec fn spec_wire(ms: Seq<T::V>) -> Result<Seq<u8>, BinaryError> {
        if ms.len() > 0xffff_ffff {
            Err(BinaryError::TooLong)
        } else {
            match wires::<T>(ms) {
                Ok(b) => Ok(varint_bytes(ms.len()) + b),
                Err(e) => Err(e),
            }
        }
    }

    open spec fn spec_read(s: Seq<u8>) -> Result<(Seq<T::V>, nat), BinaryError> {
        match varint_read(s, VAR_INT_MAX_BYTES as nat) {
            Err(e) => Err(e),
            Ok((c, p)) => match read_seq::<T>(rest(s, p as int), c) {
                Ok((vs, n)) => Ok((vs, p + n)),
                Err(e) => Err(e),
            },
        }
    }

    open spec fn spec_size() -> Option<nat> {
        None
    }

    open spec fn spec_delimited() -> bool {
        true
    }

    proof fn lemma_read_within(s: Seq<u8>) {
        lemma_varint_read_bound(s, VAR_INT_MAX_BYTES as nat);
        if let Ok((c, p)) = varint_read(s, VAR_INT_MAX_BYTES as nat) {
            lemma_read_seq_len::<T>(rest(s, p as int), c);
        }
    }

    proof fn lemma_round_trip(ms: Seq<T::V>, tail: Seq<u8>) {
        if let Ok(w) = Self::spec_wire(ms) {
            let b = wires::<T>(ms)->Ok_0;
            let pre = varint_bytes(ms.len());
            lemma_group_caps();
            lemma_varint_round_trip(ms.len(), VAR_INT_MAX_BYTES as nat, b + tail);
            assert(w + tail =~= pre + (b + tail));
            assert(rest(w + tail, pre.len() as int) =~= b + tail);
            T::lemma_primitive(ms[0]);
            T::lemma_size(ms[0], tail);
            lemma_seq_round_trip::<T>(ms, tail);
        }
    }

    proof fn lemma_size(ms: Seq<T::V>, s: Seq<u8>) {
    }

    fn fixed_size() -> (r: Option<usize>) {
        None
    }

    fn parse(&self) -> (r: Result<Vec<u8>, BinaryError>) {
        let len = self.len();
        if len as u64 > 0xffff_ffff {
            return Err(BinaryError::TooLong);
        }
        match parse_all(self) {
            Ok(body) => {
                let mut body = body;
                let mut out = var_int_bytes(len as u32);
                out.append(&mut body);
                Ok(out)
            },
            Err(e) => Err(e),
        }
    }

    fn compose(source: &[u8], position: &mut usize) -> (r: Result<Vec<T>, BinaryError>) {
        let start = *position;
        let count = match compose_var_int(source, position) {
            Ok(c) => c,
            Err(e) => return Err(e),
        };
        proof {
            let s = rest(source@, start as int);
            lemma_varint_read_bound(s, VAR_INT_MAX_BYTES as nat);
            lemma_group_caps();
            assert(rest(s, (*position - start) as int) =~= rest(source@, *position as int));
        }
        match compose_all(source, position, count) {
            Ok(v) => Ok(v),
            Err(e) => {
                *position = start;
                Err(e)
            },
        }
    }
}

impl<T: Primitive> Streamable for Vec<LE<T>> {
    /// The count as a big-endian `u16`, then each element.
    open spec fn spec_wire(ms: Seq<T::V>) -> Result<Seq<u8>, BinaryError> {
        if ms.len() > 0xffff {
            Err(BinaryError::TooLong)
        } else {
            match wires::<LE<T>>(ms) {
                Ok(b) => Ok(be_bytes(ms.len(), 2) + b),
                Err(e) => Err(e),
            }
        }
    }

    open spec fn spec_read(s: Seq<u8>) -> Result<(Seq<T::V>, nat), BinaryError> {
        match u16::spec_read(s) {
            Err(e) => Err(e),
            Ok((c, p)) => match read_seq::<LE<T>>(rest(s, p as int), c as nat) {
                Ok((vs, n)) => Ok((vs, p + n)),
                Err(e) => Err(e),
            },
        }
    }

    open spec fn spec_size() -> Option<nat> {
        None
    }

    open spec fn spec_delimited() -> bool {
        true
    }

    proof fn lemma_read_within(s: Seq<u8>) {
        if let Ok((c, p)) = u16::spec_read(s) {
            lemma_read_seq_len::<LE<T>>(rest(s, p as int), c as nat);
        }
    }

    proof fn lemma_round_trip(ms: Seq<T::V>, tail: Seq<u8>) {
        if let Ok(w) = Self::spec_wire(ms) {
            let b = wires::<LE<T>>(ms)->Ok_0;
            let c = ms.len() as u16;
            lemma_byte_caps();
            assert(c as nat == ms.len());
            u16::lemma_round_trip(c, b + tail);
            assert(w + tail =~= be_bytes(ms.len(), 2) + (b + tail));
            assert(rest(w + tail, 2) =~= b + tail);
            T::lemma_primitive(ms[0]);
            T::lemma_size(ms[0], tail);
            lemma_seq_round_trip::<LE<T>>(ms, tail);
        }
    }

    proof fn lemma_size(ms: Seq<T::V>, s: Seq<u8>) {
    }

    fn fixed_size() -> (r: Option<usize>) {
        None
    }

    fn parse(&self) -> (r: Result<Vec<u8>, BinaryError>) {
        let len = self.len();
        if len > 0xffff {
            return Err(BinaryError::TooLong);
        }
        match parse_all(self) {
            Ok(body) => {
                let mut body = body;
                let mut out = (len as u16).parse().unwrap();
                out.append(&mut body);
                Ok(out)
            },
            Err(e) => Err(e),
        }
    }

    fn compose(source: &[u8], position: &mut usize) -> (r: Result<Vec<LE<T>>, BinaryError>) {
        let start = *position;
        let count = match u16::compose(source, position) {
            Ok(c) => c,
            Err(e) => return Err(e),
        };
        proof {
            let s = rest(source@, start as int);
            assert(rest(s, (*position - start) as int) =~= rest(source@, *position as int));
        }
        match compose_all(source, position, count as u64) {
            Ok(v) => Ok(v),
            Err(e) => {
                *position = start;
                Err(e)
            },
        }
    }
}

/// A sequence decodes to as many values as were encoded, and a source whose
/// count promises more elements than its bytes hold decodes to an error,
/// never to part of a sequence.
pub proof fn lemma_sequence_length<T: Primitive>(ms: Seq<T::V>, s: Seq<u8>)
    ensures
        Vec::<T>::spec_wire(ms) matches Ok(w) ==> Vec::<T>::spec_read(w) matches Ok((vs, n))
            && vs.len() == ms.len(),
        Vec::<LE<T>>::spec_wire(ms) matches Ok(w) ==> Vec::<LE<T>>::spec_read(w) matches Ok(
            (vs, n),
        ) && vs.len() == ms.len(),
        T::spec_size() matches Some(k) ==> varint_read(s, VAR_INT_MAX_BYTES as nat) matches Ok(
            (c, p),
        ) ==> p + c * k > s.len() ==> Vec::<T>::spec_read(s) is Err,
        T::spec_size() matches Some(k) ==> u16::spec_read(s) matches Ok((c, p)) ==> p + c * k
            > s.len() ==> Vec::<LE<T>>::spec_read(s) is Err,
{
    crate::codec::lemma_compose_parse::<Vec<T>>(ms);
    crate::codec::lemma_compose_parse::<Vec<LE<T>>>(ms);
    lemma_varint_read_bound(s, VAR_INT_MAX_BYTES as nat);
    if let Ok((c, p)) = varint_read(s, VAR_INT_MAX_BYTES as nat) {
        lemma_read_seq_len::<T>(rest(s, p as int), c);
    }
    if let Ok((c, p)) = u16::spec_read(s) {
        lemma_read_seq_len::<LE<T>>(rest(s, p as int), c as nat);
    }
}

} // verus!
