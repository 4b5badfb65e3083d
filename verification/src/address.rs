//! The identifier that the store counts: an IPv4 or IPv6 address, held as
//! the integer that its bytes spell in network order.

use vstd::prelude::*;

verus! {

/// A network address. Two addresses are the same identifier exactly when
/// they are of the same family and hold the same bits; an IPv4 address is
/// never equal to an IPv6 address, whatever the bits.
#[derive(Clone, Copy, Debug, PartialEq, Eq, Hash, Structural)]
pub enum Address {
    /// An IPv4 address, `a.b.c.d` as `a << 24 | b << 16 | c << 8 | d`.
    V4(u32),
    /// An IPv6 address, its sixteen bytes as one big-endian integer.
    V6(u128),
}

} // verus!
