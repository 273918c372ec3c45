use vstd::prelude::*;

verus! {

/// Everything that can go wrong while encoding, decoding or moving a cursor.
#[derive(Debug, Clone, Copy, PartialEq, Eq, Structural)]
pub enum BinaryError {
    /// The source ends before the value it promises.
    EndOfInput,
    /// A boolean byte that is neither 0 nor 1.
    NonBinaryByte(u8),
    /// A string body that is not valid UTF-8.
    InvalidUtf8,
    /// A network address whose tag byte is neither 4 nor 6.
    UnknownAddressTag(u8),
    /// A length that does not fit the prefix it must be written in.
    TooLong,
    /// A position outside a buffer whose window is the whole buffer.
    OutOfBounds,
    /// A position outside the window that a clamp or an allocation set.
    OutsideWindow,
}

} // verus!
