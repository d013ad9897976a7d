//! A pure D-Bus client library: the binary wire-format codec (marshaling and
//! unmarshaling of dynamically typed values with their alignment rules), the
//! SASL session establishment, message framing, and a small client facade
//! that assigns serial numbers and buffers out-of-order messages.
use vstd::prelude::*;

pub mod client;
pub mod conn;
pub mod de;
pub mod laws;
pub mod msg;
pub mod ser;
pub mod val;
pub mod wire;

verus! {

/// Byte order of one wire message. It is chosen per outgoing message and
/// carried as the first byte of the message (`'l'` little, `'B'` big);
/// every later field of that message is read in this order.
#[derive(Clone, Copy, PartialEq, Eq, Structural, Debug)]
pub enum Endianness {
    Big,
    Little,
}

} // verus!
