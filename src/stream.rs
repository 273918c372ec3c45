//! A byte buffer with a cursor and a window: reads start at the cursor, and
//! every access stays between the window's lower and upper bound.
use vstd::prelude::*;
use crate::codec::Streamable;
use crate::composite::LE;
use crate::error::BinaryError;
use crate::varint::{compose_var_int, lemma_varint_read_bound, varint_read, VAR_INT_MAX_BYTES};
use crate::wire::rest;

verus! {

/// What a stream holds: its bytes, its cursor, and its window.
pub struct StreamView {
    pub buffer: Seq<u8>,
    pub offset: nat,
    pub lower: nat,
    pub upper: nat,
}

impl StreamView {
    /// The cursor lies in the window, and the window in the buffer.
    pub open spec fn wf(self) -> bool {
        self.lower <= self.offset <= self.upper <= self.buffer.len()
    }

    /// The bytes that a read at the cursor may consume.
    pub open spec fn window(self) -> Seq<u8> {
        self.buffer.subrange(self.offset as int, self.upper as int)
    }

    /// The same stream with its cursor `n` bytes further.
    pub open spec fn advanced(self, n: nat) -> StreamView {
        StreamView { offset: self.offset + n, ..self }
    }

    /// Whether `o` is a position in the window and in the buffer.
    pub open spec fn within(self, o: int) -> bool {
        self.lower <= o <= self.upper && o <= self.buffer.len()
    }

    /// Whether the byte at `i` may be accessed.
    pub open spec fn accessible(self, i: int) -> bool {
        self.lower <= i < self.upper
    }

    /// The error for an access outside the window: where the window is the
    /// whole buffer the buffer itself is too short; else a clamp or an
    /// allocation narrowed it.
    pub open spec fn bounds_error(self) -> BinaryError {
        if self.lower == 0 && self.upper == self.buffer.len() {
            BinaryError::OutOfBounds
        } else {
            BinaryError::OutsideWindow
        }
    }

    /// The stream after a clamp at `k`: its window starts at `k`, and the
    /// cursor moves up to `k` if it lay below.
    pub open spec fn clamped(self, k: nat) -> StreamView {
        StreamView { lower: k, offset: if self.offset < k { k } else { self.offset }, ..self }
    }

    /// A fresh stream over `bytes`: cursor at the start, window over all of it.
    pub open spec fn fresh(bytes: Seq<u8>) -> StreamView {
        StreamView { buffer: bytes, offset: 0, lower: 0, upper: bytes.len() }
    }
}

/// A decode at the cursor: on success the value, and the cursor moves by
/// the bytes read; on an error the stream stays as it was.
pub open spec fn read_outcome<V>(
    before: StreamView,
    after: StreamView,
    expected: Result<(V, nat), BinaryError>,
    got: Result<V, BinaryError>,
) -> bool {
    match expected {
        Ok((m, n)) => got == Ok::<V, BinaryError>(m) && after == before.advanced(n),
        Err(e) => got == Err::<V, BinaryError>(e) && after == before,
    }
}

/// An owned, growable byte buffer with a cursor (`offset`) and a window
/// (`bounds`) that every access must stay within.
pub struct BinaryStream {
    buffer: Vec<u8>,
    offset: usize,
    bounds: (usize, usize),
}

impl View for BinaryStream {
    type V = StreamView;

    closed spec fn view(&self) -> StreamView {
        StreamView {
            buffer: self.buffer@,
            offset: self.offset as nat,
            lower: self.bounds.0 as nat,
            upper: self.bounds.1 as nat,
        }
    }
}

impl BinaryStream {
    fn bounds_error(&self) -> (r: BinaryError)
        ensures
            r == self@.bounds_error(),
    {
        if self.bounds.0 == 0 && self.bounds.1 == self.buffer.len() {
            BinaryError::OutOfBounds
        } else {
            BinaryError::OutsideWindow
        }
    }

    /// Creates a stream over a copy of `buf`, with the window over all of it.
    pub fn new(buf: &Vec<u8>) -> (r: Self)
        ensures
            r@ == StreamView::fresh(buf@),
            r@.wf(),
    {
        BinaryStream { buffer: buf.clone(), bounds: (0, buf.len()), offset: 0 }
    }

    /// Moves the cursor forward by `amount`, or by one where none is given,
    /// and returns the new cursor; fails where that would leave the window.
    pub fn increase_offset(&mut self, amount: Option<usize>) -> (r: Result<usize, BinaryError>)
        requires
            old(self)@.wf(),
        ensures
            final(self)@.wf(),
            ({
                let n: nat = match amount {
                    Some(n) => n as nat,
                    None => 1,
                };
                if old(self)@.offset + n <= old(self)@.upper {
                    r == Ok::<usize, BinaryError>((old(self)@.offset + n) as usize) && final(self)@
                        == old(self)@.advanced(n)
                } else {
                    r == Err::<usize, BinaryError>(old(self)@.bounds_error()) && final(self)@
                        == old(self)@
                }
            }),
    {
        let amnt: usize = match amount {
            None => 1,
            Some(n) => n,
        };
        if amnt > self.bounds.1 - self.offset {
            return Err(self.bounds_error());
        }
        self.offset = self.offset + amnt;
        Ok(self.offset)
    }

    /// Moves the cursor to `offset` where that lies in the window, and says
    /// whether it did; else nothing changes.
    pub fn set_offset(&mut self, offset: usize) -> (r: bool)
        requires
            old(self)@.wf(),
        ensures
            final(self)@.wf(),
            r == (old(self)@.lower <= offset <= old(self)@.upper),
            r ==> final(self)@ == (StreamView { offset: offset as nat, ..old(self)@ }),
            !r ==> final(self)@ == old(self)@,
    {
        if offset < self.bounds.0 || offset > self.bounds.1 {
            false
        } else {
            self.offset = offset;
            true
        }
    }

    /// The cursor.
    pub fn get_offset(&self) -> (r: usize)
        ensures
            r == self@.offset,
    {
        self.offset
    }

    /// The window, as its lower and upper bound.
    pub fn get_bounds(&self) -> (r: (usize, usize))
        ensures
            r.0 == self@.lower,
            r.1 == self@.upper,
    {
        self.bounds
    }

    /// All the bytes of the buffer, inside the window or not.
    pub fn get_buffer(&self) -> (r: &Vec<u8>)
        ensures
            r@ == self@.buffer,
    {
        &self.buffer
    }

    /// Grows the buffer by `bytes` zero bytes, and moves the window's upper
    /// bound to the new end.
    pub fn allocate(&mut self, bytes: usize)
        requires
            old(self)@.wf(),
            old(self)@.buffer.len() + bytes <= usize::MAX,
        ensures
            final(self)@.wf(),
            final(self)@ == (StreamView {
                buffer: old(self)@.buffer + Seq::new(bytes as nat, |i: int| 0u8),
                upper: old(self)@.buffer.len() + bytes as nat,
                ..old(self)@
            }),
    {
        let ghost before = self.buffer@;
        let target = self.buffer.len() + bytes;
        let mut i: usize = 0;
        while i < bytes
            invariant
                i <= bytes,
                target == before.len() + bytes,
                self.buffer@ =~= before + Seq::new(i as nat, |j: int| 0u8),
                self.offset == old(self).offset,
                self.bounds == old(self).bounds,
            decreases bytes - i,
        {
            self.buffer.push(0);
            i = i + 1;
            assert(self.buffer@ =~= before + Seq::new(i as nat, |j: int| 0u8));
        }
        self.bounds.1 = target;
    }

    /// Raises the window's lower bound to `offset`, so that the bytes before
    /// it can no longer be reached through this stream, and returns a fresh
    /// stream over a copy of all the bytes (a copy, not a view: it costs the
    /// memory of the buffer). Fails where `offset` lies past the window.
    pub fn clamp(&mut self, offset: usize) -> (r: Result<BinaryStream, BinaryError>)
        requires
            old(self)@.wf(),
        ensures
            final(self)@.wf(),
            offset <= old(self)@.upper ==> final(self)@ == old(self)@.clamped(offset as nat) && (
            r matches Ok(c) && c@ == StreamView::fresh(old(self)@.buffer) && c@.wf()),
            offset > old(self)@.upper ==> final(self)@ == old(self)@ && r == Err::<
                BinaryStream,
                BinaryError,
            >(old(self)@.bounds_error()),
    {
        if offset > self.bounds.1 {
            return Err(self.bounds_error());
        }
        self.bounds.0 = offset;
        if self.offset < offset {
            self.offset = offset;
        }
        Ok(BinaryStream::new(&self.buffer))
    }

    /// Whether `offset` lies in the window and in the buffer.
    pub fn is_within_bounds(&self, offset: usize) -> (r: bool)
        ensures
            r == self@.within(offset as int),
    {
        !(offset > self.bounds.1 || offset < self.bounds.0 || offset > self.buffer.len())
    }

    /// The byte at `idx`, where it lies in the window.
    pub fn get(&self, idx: usize) -> (r: Result<u8, BinaryError>)
        requires
            self@.wf(),
        ensures
            self@.accessible(idx as int) ==> r == Ok::<u8, BinaryError>(self@.buffer[idx as int]),
            !self@.accessible(idx as int) ==> r == Err::<u8, BinaryError>(self@.bounds_error()),
    {
        if idx < self.bounds.0 || idx >= self.bounds.1 {
            return Err(self.bounds_error());
        }
        Ok(self.buffer[idx])
    }

    /// The bytes from `start` up to `end`, where that range lies in the window.
    pub fn get_range(&self, start: usize, end: usize) -> (r: Result<Vec<u8>, BinaryError>)
        requires
            self@.wf(),
        ensures
            self@.lower <= start <= end <= self@.upper ==> (r matches Ok(v) && v@
                == self@.buffer.subrange(start as int, end as int)),
            !(self@.lower <= start <= end <= self@.upper) ==> r == Err::<Vec<u8>, BinaryError>(
                self@.bounds_error(),
            ),
    {
        if start < self.bounds.0 || start > end || end > self.bounds.1 {
            return Err(self.bounds_error());
        }
        let s = vstd::slice::slice_subrange(self.buffer.as_slice(), start, end);
        Ok(vstd::slice::slice_to_vec(s))
    }

    /// Writes `value` at `idx`, where it lies in the window.
    pub fn set(&mut self, idx: usize, value: u8) -> (r: Result<(), BinaryError>)
        requires
            old(self)@.wf(),
        ensures
            final(self)@.wf(),
            old(self)@.accessible(idx as int) ==> r is Ok && final(self)@ == (StreamView {
                buffer: old(self)@.buffer.update(idx as int, value),
                ..old(self)@
            }),
            !old(self)@.accessible(idx as int) ==> r == Err::<(), BinaryError>(
                old(self)@.bounds_error(),
            ) && final(self)@ == old(self)@,
    {
        if idx < self.bounds.0 || idx >= self.bounds.1 {
            return Err(self.bounds_error());
        }
        self.buffer.set(idx, value);
        Ok(())
    }

    /// Reads the byte at the cursor, clamps the window to start there, and
    /// moves the cursor past it.
    pub fn read(&mut self) -> (r: Result<u8, BinaryError>)
        requires
            old(self)@.wf(),
        ensures
            final(self)@.wf(),
            old(self)@.accessible(old(self)@.offset as int) ==> r == Ok::<u8, BinaryError>(
                old(self)@.buffer[old(self)@.offset as int],
            ) && final(self)@ == old(self)@.clamped(old(self)@.offset).advanced(1),
            !old(self)@.accessible(old(self)@.offset as int) ==> r == Err::<u8, BinaryError>(
                old(self)@.bounds_error(),
            ) && final(self)@ == old(self)@,
    {
        let byte = match self.get(self.offset) {
            Ok(b) => b,
            Err(e) => return Err(e),
        };
        self.bounds.0 = self.offset;
        self.offset = self.offset + 1;
        Ok(byte)
    }

    /// Decodes a value of any encodable type at the cursor, from the bytes
    /// up to the window's upper bound, and moves the cursor past it.
    pub fn read_as<T: Streamable>(&mut self) -> (r: Result<T, BinaryError>)
        requires
            old(self)@.wf(),
        ensures
            final(self)@.wf(),
            match T::spec_read(old(self)@.window()) {
                Ok((m, n)) => r matches Ok(v) && v.deep_view() == m && final(self)@ == old(
                    self,
                )@.advanced(n),
                Err(e) => r == Err::<T, BinaryError>(e) && final(self)@ == old(self)@,
            },
    {
        let w = vstd::slice::slice_subrange(self.buffer.as_slice(), 0, self.bounds.1);
        assert(rest(w@, self.offset as int) =~= self@.window());
        let mut p = self.offset;
        proof {
            T::lemma_read_within(self@.window());
        }
        match T::compose(w, &mut p) {
            Ok(v) => {
                self.offset = p;
                Ok(v)
            },
            Err(e) => Err(e),
        }
    }

    /// Reads one byte.
    pub fn read_byte(&mut self) -> (r: Result<u8, BinaryError>)
        requires
            old(self)@.wf(),
        ensures
            final(self)@.wf(),
            read_outcome(old(self)@, final(self)@, u8::spec_read(old(self)@.window()), r),
    {
        self.read_as::<u8>()
    }

    /// Reads one byte as a signed integer.
    pub fn read_signed_byte(&mut self) -> (r: Result<i8, BinaryError>)
        requires
            old(self)@.wf(),
        ensures
            final(self)@.wf(),
            read_outcome(old(self)@, final(self)@, i8::spec_read(old(self)@.window()), r),
    {
        self.read_as::<i8>()
    }

    /// Reads one byte; any byte but zero is true.
    pub fn read_bool(&mut self) -> (r: Result<bool, BinaryError>)
        requires
            old(self)@.wf(),
        ensures
            final(self)@.wf(),
            read_outcome(
                old(self)@,
                final(self)@,
                match u8::spec_read(old(self)@.window()) {
                    Ok((b, n)) => Ok((b != 0, n)),
                    Err(e) => Err(e),
                },
                r,
            ),
    {
        match self.read_byte() {
            Ok(b) => Ok(b != 0),
            Err(e) => Err(e),
        }
    }

    /// Reads a string: a big-endian `u16` byte count, then that many bytes
    /// of UTF-8.
    pub fn read_string(&mut self) -> (r: Result<String, BinaryError>)
        requires
            old(self)@.wf(),
        ensures
            final(self)@.wf(),
            match String::spec_read(old(self)@.window()) {
                Ok((m, n)) => r matches Ok(v) && v@ == m && final(self)@ == old(self)@.advanced(n),
                Err(e) => r == Err::<String, BinaryError>(e) && final(self)@ == old(self)@,
            },
    {
        self.read_as::<String>()
    }

    /// Reads a big-endian `u16`.
    pub fn read_short(&mut self) -> (r: Result<u16, BinaryError>)
        requires
            old(self)@.wf(),
        ensures
            final(self)@.wf(),
            read_outcome(old(self)@, final(self)@, u16::spec_read(old(self)@.window()), r),
    {
        self.read_as::<u16>()
    }

    /// Reads a big-endian `i16`.
    pub fn read_signed_short(&mut self) -> (r: Result<i16, BinaryError>)
        requires
            old(self)@.wf(),
        ensures
            final(self)@.wf(),
            read_outcome(old(self)@, final(self)@, i16::spec_read(old(self)@.window()), r),
    {
        self.read_as::<i16>()
    }

    /// Reads a little-endian `u16`.
    pub fn read_short_le(&mut self) -> (r: Result<u16, BinaryError>)
        requires
            old(self)@.wf(),
        ensures
            final(self)@.wf(),
            read_outcome(old(self)@, final(self)@, LE::<u16>::spec_read(old(self)@.window()), r),
    {
        match self.read_as::<LE<u16>>() {
            Ok(v) => Ok(v.inner()),
            Err(e) => Err(e),
        }
    }

    /// Reads a little-endian `i16`.
    pub fn read_signed_short_le(&mut self) -> (r: Result<i16, BinaryError>)
        requires
            old(self)@.wf(),
        ensures
            final(self)@.wf(),
            read_outcome(old(self)@, final(self)@, LE::<i16>::spec_read(old(self)@.window()), r),
    {
        match self.read_as::<LE<i16>>() {
            Ok(v) => Ok(v.inner()),
            Err(e) => Err(e),
        }
    }

    /// Reads a big-endian `i32`.
    pub fn read_int(&mut self) -> (r: Result<i32, BinaryError>)
        requires
            old(self)@.wf(),
        ensures
            final(self)@.wf(),
            read_outcome(old(self)@, final(self)@, i32::spec_read(old(self)@.window()), r),
    {
        self.read_as::<i32>()
    }

    /// Reads a little-endian `i32`.
    pub fn read_int_le(&mut self) -> (r: Result<i32, BinaryError>)
        requires
            old(self)@.wf(),
        ensures
            final(self)@.wf(),
            read_outcome(old(self)@, final(self)@, LE::<i32>::spec_read(old(self)@.window()), r),
    {
        match self.read_as::<LE<i32>>() {
            Ok(v) => Ok(v.inner()),
            Err(e) => Err(e),
        }
    }

    /// Reads a big-endian `i64`.
    pub fn read_long(&mut self) -> (r: Result<i64, BinaryError>)
        requires
            old(self)@.wf(),
        ensures
            final(self)@.wf(),
            read_outcome(old(self)@, final(self)@, i64::spec_read(old(self)@.window()), r),
    {
        self.read_as::<i64>()
    }

    /// Reads a little-endian `i64`.
    pub fn read_long_le(&mut self) -> (r: Result<i64, BinaryError>)
        requires
            old(self)@.wf(),
        ensures
            final(self)@.wf(),
            read_outcome(old(self)@, final(self)@, LE::<i64>::spec_read(old(self)@.window()), r),
    {
        match self.read_as::<LE<i64>>() {
            Ok(v) => Ok(v.inner()),
            Err(e) => Err(e),
        }
    }

    /// Reads a variable-length integer of at most five bytes.
    pub fn read_var_int(&mut self) -> (r: Result<u64, BinaryError>)
        requires
            old(self)@.wf(),
        ensures
            final(self)@.wf(),
            read_outcome(
                old(self)@,
                final(self)@,
                match varint_read(old(self)@.window(), VAR_INT_MAX_BYTES as nat) {
                    Ok((v, n)) => Ok((v as u64, n)),
                    Err(e) => Err(e),
                },
                r,
            ),
    {
        let w = vstd::slice::slice_subrange(self.buffer.as_slice(), 0, self.bounds.1);
        assert(rest(w@, self.offset as int) =~= self@.window());
        let mut p = self.offset;
        proof {
            lemma_varint_read_bound(self@.window(), VAR_INT_MAX_BYTES as nat);
        }
        match compose_var_int(w, &mut p) {
            Ok(v) => {
                self.offset = p;
                Ok(v)
            },
            Err(e) => Err(e),
        }
    }
}

/// Indexing enforces the window: a byte outside `[lower, upper)` is never
/// reachable; after a clamp at `k` no byte below `k` is reachable through
/// the clamped stream, while the fresh copy that the clamp returns reaches
/// every byte of the buffer again.
pub proof fn lemma_clamp_bounds(s: StreamView, k: nat, i: int)
    requires
        s.wf(),
        k <= s.upper,
    ensures
        s.clamped(k).wf(),
        i < k ==> !s.clamped(k).accessible(i),
        0 <= i < s.buffer.len() ==> StreamView::fresh(s.buffer).accessible(i),
{
}

} // verus!
