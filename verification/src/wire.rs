//! Numbers in network byte order, and random ids.
use byteorder::{BigEndian, ByteOrder};
use vstd::prelude::*;

verus! {

/// `byteorder`'s `BigEndian::read_u16`: the number that the first two bytes make, the
/// high byte first.
#[verifier::external_body]
pub(crate) fn read_u16(buf: &[u8]) -> (n: u16)
    requires
        buf@.len() >= 2,
    ensures
        n == buf@[0] * 256 + buf@[1],
{
    BigEndian::read_u16(buf)
}

/// `byteorder`'s `BigEndian::write_u16`: the two bytes that make a number, the high byte
/// first.
#[verifier::external_body]
pub(crate) fn write_u16(n: u16) -> (buf: [u8; 2])
    ensures
        buf@[0] == n / 256,
        buf@[1] == n % 256,
{
    let mut buf = [0; 2];
    BigEndian::write_u16(&mut buf, n);
    buf
}

/// `rand::random`: any number.
#[verifier::external_body]
pub(crate) fn random_u16() -> (n: u16) {
    rand::random::<u16>()
}

} // verus!
