//! The codec contract: every encodable type says in spec terms what its wire
//! bytes are and what a byte source decodes to, and proves the round trip.
use vstd::prelude::*;
use crate::error::BinaryError;
use crate::wire::rest;

verus! {

/// A type with a canonical byte form. `parse` writes a value; `compose` reads
/// one from `source` at the caller's cursor and moves the cursor past every
/// byte it consumed. Contracts speak of the value's deep view.
pub trait Streamable: DeepView + Sized {
    /// The wire bytes of the value whose model is `m`, or why it has none.
    spec fn spec_wire(m: Self::V) -> Result<Seq<u8>, BinaryError>;

    /// What the bytes at the front of `s` decode to, with how many of them
    /// that takes, or why they decode to nothing.
    spec fn spec_read(s: Seq<u8>) -> Result<(Self::V, nat), BinaryError>;

    /// The length of every encoding, for a type whose encodings have one.
    spec fn spec_size() -> Option<nat>;

    /// Whether a decode looks at no byte past those it consumes, so that a
    /// value can be followed by others in one source.
    spec fn spec_delimited() -> bool;

    /// A decode consumes no more bytes than it was given.
    proof fn lemma_read_within(s: Seq<u8>)
        ensures
            Self::spec_read(s) matches Ok((m, n)) ==> n <= s.len(),
    ;

    /// Decoding the encoding of a model gives the model back and consumes
    /// the whole encoding, whatever follows it where the type is delimited.
    proof fn lemma_round_trip(m: Self::V, tail: Seq<u8>)
        requires
            Self::spec_delimited() || tail.len() == 0,
        ensures
            Self::spec_wire(m) matches Ok(w) ==> Self::spec_read(w + tail) == Ok::<
                (Self::V, nat),
                BinaryError,
            >((m, w.len())),
    ;

    /// A fixed size is the length of every encoding and of every decode, and a
    /// shorter source decodes to nothing.
    proof fn lemma_size(m: Self::V, s: Seq<u8>)
        ensures
            Self::spec_size() matches Some(k) ==> {
                &&& Self::spec_delimited()
                &&& Self::spec_wire(m) matches Ok(w) ==> w.len() == k
                &&& Self::spec_read(s) matches Ok((v, n)) ==> n == k
                &&& s.len() < k ==> Self::spec_read(s) is Err
            },
    ;

    /// The fixed encoded size of the type, if it has one.
    fn fixed_size() -> (r: Option<usize>)
        ensures
            r matches Some(k) ==> Self::spec_size() == Some(k as nat),
            r is None ==> Self::spec_size() is None,
    ;

    /// Writes `self` to a new byte sequence.
    fn parse(&self) -> (r: Result<Vec<u8>, BinaryError>)
        ensures
            match Self::spec_wire(self.deep_view()) {
                Ok(w) => r matches Ok(b) && b@ == w,
                Err(e) => r == Err::<Vec<u8>, BinaryError>(e),
            },
    ;

    /// Reads a value from `source` at `*position`, and moves `*position` past
    /// the bytes read; on an error the position stays.
    fn compose(source: &[u8], position: &mut usize) -> (r: Result<Self, BinaryError>)
        ensures
            match Self::spec_read(rest(source@, *old(position) as int)) {
                Ok((m, n)) => r matches Ok(v) && v.deep_view() == m && *final(position)
                    == *old(position) + n,
                Err(e) => r == Err::<Self, BinaryError>(e) && *final(position) == *old(position),
            },
    ;

    /// `parse` for a value that is known to have an encoding.
    fn fparse(&self) -> (r: Vec<u8>)
        requires
            Self::spec_wire(self.deep_view()) is Ok,
        ensures
            Self::spec_wire(self.deep_view()) == Ok::<Seq<u8>, BinaryError>(r@),
    {
        self.parse().unwrap()
    }

    /// `compose` for a source that is known to hold a value at `*position`.
    fn fcompose(source: &[u8], position: &mut usize) -> (r: Self)
        requires
            Self::spec_read(rest(source@, *old(position) as int)) is Ok,
        ensures
            Self::spec_read(rest(source@, *old(position) as int)) matches Ok((m, n)) && r.deep_view()
                == m && *final(position) == *old(position) + n,
    {
        Self::compose(source, position).unwrap()
    }
}

/// Composing what `parse` wrote gives back the value, and consumes all of it.
pub proof fn lemma_compose_parse<T: Streamable>(m: T::V)
    ensures
        T::spec_wire(m) matches Ok(w) ==> T::spec_read(w) == Ok::<(T::V, nat), BinaryError>(
            (m, w.len()),
        ),
{
    T::lemma_round_trip(m, Seq::empty());
    if let Ok(w) = T::spec_wire(m) {
        assert(w + Seq::<u8>::empty() =~= w);
    }
}

/// Two values encoded one after the other decode one after the other: the
/// second decode starts where the first left the cursor, and each gives back
/// its own value.
pub proof fn lemma_consecutive<A: Streamable, B: Streamable>(a: A::V, b: B::V, tail: Seq<u8>)
    requires
        A::spec_delimited(),
        B::spec_delimited() || tail.len() == 0,
    ensures
        A::spec_wire(a) matches Ok(wa) ==> B::spec_wire(b) matches Ok(wb) ==> {
            &&& A::spec_read(wa + wb + tail) == Ok::<(A::V, nat), BinaryError>((a, wa.len()))
            &&& B::spec_read(rest(wa + wb + tail, wa.len() as int)) == Ok::<
                (B::V, nat),
                BinaryError,
            >((b, wb.len()))
        },
{
    if let Ok(wa) = A::spec_wire(a) {
        if let Ok(wb) = B::spec_wire(b) {
            A::lemma_round_trip(a, wb + tail);
            B::lemma_round_trip(b, tail);
            assert(wa + wb + tail =~= wa + (wb + tail));
            assert(rest(wa + wb + tail, wa.len() as int) =~= wb + tail);
        }
    }
}

} // verus!
