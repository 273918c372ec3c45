//! IP end points on the wire: a tag byte, then the fields of the address in
//! big-endian order.
use vstd::prelude::*;
use crate::codec::Streamable;
use crate::error::BinaryError;
use crate::wire::{
    be_bytes, be_value, lemma_be_bytes_len, lemma_be_round_trip, lemma_byte_caps, read_field,
    rest, rest_slice, write_be,
};

verus! {

/// An IP end point. An IPv4 address is its four octets read as one
/// big-endian integer; an IPv6 address is its sixteen octets read so.
#[allow(inconsistent_fields)]
#[derive(Debug, Clone, Copy, PartialEq, Eq, Structural)]
pub enum SocketAddress {
    V4 { ip: u32, port: u16 },
    V6 { ip: u128, port: u16, flowinfo: u32, scope_id: u32 },
}

impl DeepView for SocketAddress {
    type V = SocketAddress;

    open spec fn deep_view(&self) -> SocketAddress {
        *self
    }
}

/// The tag byte of an IPv4 end point.
pub const IPV4_TAG: u8 = 4;

/// The tag byte of an IPv6 end point.
pub const IPV6_TAG: u8 = 6;

/// Bytes in an encoded IPv4 end point: tag, address, port.
pub const IPV4_LEN: usize = 7;

/// Bytes in an encoded IPv6 end point: tag, reserved field, port, flow
/// information, address, scope.
pub const IPV6_LEN: usize = 29;

/// The encoded IPv4 end point.
pub open spec fn v4_wire(ip: u32, port: u16) -> Seq<u8> {
    seq![IPV4_TAG] + be_bytes(ip as nat, 4) + be_bytes(port as nat, 2)
}

/// The encoded IPv6 end point; its reserved field is written as zero.
pub open spec fn v6_wire(ip: u128, port: u16, flowinfo: u32, scope_id: u32) -> Seq<u8> {
    seq![IPV6_TAG] + be_bytes(0, 2) + be_bytes(port as nat, 2) + be_bytes(flowinfo as nat, 4)
        + be_bytes(ip as nat, 16) + be_bytes(scope_id as nat, 4)
}

/// The big-endian integer in `s` from `a` up to `b`.
pub open spec fn field(s: Seq<u8>, a: int, b: int) -> nat {
    be_value(s.subrange(a, b))
}

impl Streamable for SocketAddress {
    open spec fn spec_wire(m: SocketAddress) -> Result<Seq<u8>, BinaryError> {
        match m {
            SocketAddress::V4 { ip, port } => Ok(v4_wire(ip, port)),
            SocketAddress::V6 { ip, port, flowinfo, scope_id } => Ok(
                v6_wire(ip, port, flowinfo, scope_id),
            ),
        }
    }

    /// Dispatches on the tag byte; any tag but the two known ones is refused.
    open spec fn spec_read(s: Seq<u8>) -> Result<(SocketAddress, nat), BinaryError> {
        if s.len() == 0 {
            Err(BinaryError::EndOfInput)
        } else if s[0] == IPV4_TAG {
            if s.len() < IPV4_LEN {
                Err(BinaryError::EndOfInput)
            } else {
                Ok(
                    (
                        SocketAddress::V4 {
                            ip: field(s, 1, 5) as u32,
                            port: field(s, 5, 7) as u16,
                        },
                        IPV4_LEN as nat,
                    ),
                )
            }
        } else if s[0] == IPV6_TAG {
            if s.len() < IPV6_LEN {
                Err(BinaryError::EndOfInput)
            } else {
                Ok(
                    (
                        SocketAddress::V6 {
                            port: field(s, 3, 5) as u16,
                            flowinfo: field(s, 5, 9) as u32,
                            ip: field(s, 9, 25) as u128,
                            scope_id: field(s, 25, 29) as u32,
                        },
                        IPV6_LEN as nat,
                    ),
                )
            }
        } else {
            Err(BinaryError::UnknownAddressTag(s[0]))
        }
    }

    open spec fn spec_size() -> Option<nat> {
        None
    }

    open spec fn spec_delimited() -> bool {
        true
    }

    proof fn lemma_read_within(s: Seq<u8>) {
    }

    proof fn lemma_round_trip(m: SocketAddress, tail: Seq<u8>) {
        lemma_byte_caps();
        match m {
            SocketAddress::V4 { ip, port } => {
                let w = v4_wire(ip, port) + tail;
                lemma_be_bytes_len(ip as nat, 4);
                lemma_be_bytes_len(port as nat, 2);
                lemma_be_round_trip(ip as nat, 4);
                lemma_be_round_trip(port as nat, 2);
                assert(w.subrange(1, 5) =~= be_bytes(ip as nat, 4));
                assert(w.subrange(5, 7) =~= be_bytes(port as nat, 2));
            },
            SocketAddress::V6 { ip, port, flowinfo, scope_id } => {
                let w = v6_wire(ip, port, flowinfo, scope_id) + tail;
                lemma_be_bytes_len(0, 2);
                lemma_be_bytes_len(port as nat, 2);
                lemma_be_bytes_len(flowinfo as nat, 4);
                lemma_be_bytes_len(ip as nat, 16);
                lemma_be_bytes_len(scope_id as nat, 4);
                lemma_be_round_trip(port as nat, 2);
                lemma_be_round_trip(flowinfo as nat, 4);
                lemma_be_round_trip(ip as nat, 16);
                lemma_be_round_trip(scope_id as nat, 4);
                assert(w.subrange(3, 5) =~= be_bytes(port as nat, 2));
                assert(w.subrange(5, 9) =~= be_bytes(flowinfo as nat, 4));
                assert(w.subrange(9, 25) =~= be_bytes(ip as nat, 16));
                assert(w.subrange(25, 29) =~= be_bytes(scope_id as nat, 4));
            },
        }
    }

    proof fn lemma_size(m: SocketAddress, s: Seq<u8>) {
    }

    fn fixed_size() -> (r: Option<usize>) {
        None
    }

    fn parse(&self) -> (r: Result<Vec<u8>, BinaryError>) {
        proof {
            lemma_byte_caps();
        }
        match *self {
            SocketAddress::V4 { ip, port } => {
                let mut out = vec![IPV4_TAG];
                out.append(&mut write_be(ip as u128, 4));
                out.append(&mut write_be(port as u128, 2));
                Ok(out)
            },
            SocketAddress::V6 { ip, port, flowinfo, scope_id } => {
                let mut out = vec![IPV6_TAG];
                out.append(&mut write_be(0, 2));
                out.append(&mut write_be(port as u128, 2));
                out.append(&mut write_be(flowinfo as u128, 4));
                out.append(&mut write_be(ip, 16));
                out.append(&mut write_be(scope_id as u128, 4));
                assert(out@ =~= v6_wire(ip, port, flowinfo, scope_id));
                Ok(out)
            },
        }
    }

    fn compose(source: &[u8], position: &mut usize) -> (r: Result<SocketAddress, BinaryError>) {
        let s = rest_slice(source, *position);
        if s.len() == 0 {
            return Err(BinaryError::EndOfInput);
        }
        let len = source.len();
        assert(*position + s@.len() == len);
        let tag = s[0];
        if tag == IPV4_TAG {
            if s.len() < IPV4_LEN {
                return Err(BinaryError::EndOfInput);
            }
            let ip = read_field(s, 1, 4) as u32;
            let port = read_field(s, 5, 2) as u16;
            *position = *position + IPV4_LEN;
            Ok(SocketAddress::V4 { ip, port })
        } else if tag == IPV6_TAG {
            if s.len() < IPV6_LEN {
                return Err(BinaryError::EndOfInput);
            }
            let port = read_field(s, 3, 2) as u16;
            let flowinfo = read_field(s, 5, 4) as u32;
            let ip = read_field(s, 9, 16);
            let scope_id = read_field(s, 25, 4) as u32;
            *position = *position + IPV6_LEN;
            Ok(SocketAddress::V6 { ip, port, flowinfo, scope_id })
        } else {
            Err(BinaryError::UnknownAddressTag(tag))
        }
    }
}

/// A source whose tag byte is neither of the two known tags decodes to an
/// error that names the tag, never to an address.
pub proof fn lemma_unknown_tag(s: Seq<u8>)
    requires
        s.len() > 0,
        s[0] != IPV4_TAG,
        s[0] != IPV6_TAG,
    ensures
        SocketAddress::spec_read(s) == Err::<(SocketAddress, nat), BinaryError>(
            BinaryError::UnknownAddressTag(s[0]),
        ),
{
}

} // verus!
