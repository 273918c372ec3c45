//! Binary codec core: a contract for turning typed values into canonical
//! (big-endian) bytes and back, and a byte buffer with a cursor and bounds.
pub mod error;
pub mod wire;
pub mod codec;
pub mod primitives;
pub mod varint;
pub mod composite;
pub mod collections;
pub mod address;
pub mod stream;

pub use address::SocketAddress;
pub use codec::Streamable;
pub use composite::{reverse_vec, BE, LE};
pub use error::BinaryError;
pub use primitives::Primitive;
pub use stream::BinaryStream;
