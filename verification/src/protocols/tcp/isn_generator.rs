//! Initial sequence numbers that an outsider cannot guess: a checksum of the
//! two endpoints of the connection and a secret, plus a counter.

use crate::protocols::ipv4::Endpoint;
use crate::protocols::tcp::SeqNumber;
use crc::crc32;
use vstd::prelude::*;

verus! {

/// The CRC-32 checksum, with the IEEE polynomial, of `bytes`.
pub uninterp spec fn crc32_ieee(bytes: Seq<u8>) -> u32;

/// Calls `crc::crc32::checksum_ieee`, which computes the CRC-32 checksum of
/// `bytes` with the IEEE polynomial.
#[verifier::external_body]
fn checksum_ieee(bytes: &Vec<u8>) -> (sum: u32)
    ensures
        sum == crc32_ieee(bytes@),
{
    crc32::checksum_ieee(bytes.as_slice())
}

/// The four bytes of `x`, the least significant first.
pub open spec fn le_bytes_u32(x: u32) -> Seq<u8> {
    seq![
        (x % 256) as u8,
        ((x / 0x100) % 256) as u8,
        ((x / 0x1_0000) % 256) as u8,
        ((x / 0x100_0000) % 256) as u8,
    ]
}

/// The two bytes of `x`, the least significant first.
pub open spec fn le_bytes_u16(x: u16) -> Seq<u8> {
    seq![(x % 256) as u8, ((x / 0x100) % 256) as u8]
}

/// The bytes that are summed for a connection between `local` and `remote`
/// under the secret `nonce`.
pub open spec fn isn_input(local: Endpoint, remote: Endpoint, nonce: u32) -> Seq<u8> {
    le_bytes_u32(remote.addr) + le_bytes_u16(remote.port@) + le_bytes_u32(local.addr)
        + le_bytes_u16(local.port@) + le_bytes_u32(nonce)
}

fn push_u32(buf: &mut Vec<u8>, x: u32)
    ensures
        final(buf)@ == old(buf)@ + le_bytes_u32(x),
{
    buf.push((x % 256) as u8);
    buf.push(((x / 0x100) % 256) as u8);
    buf.push(((x / 0x1_0000) % 256) as u8);
    buf.push(((x / 0x100_0000) % 256) as u8);
    assert(buf@ =~= old(buf)@ + le_bytes_u32(x));
}

fn push_u16(buf: &mut Vec<u8>, x: u16)
    ensures
        final(buf)@ == old(buf)@ + le_bytes_u16(x),
{
    buf.push((x % 256) as u8);
    buf.push(((x / 0x100) % 256) as u8);
    assert(buf@ =~= old(buf)@ + le_bytes_u16(x));
}

/// The sequence number made from the checksum `hash` by the generator whose
/// counter stands at `counter`: their sum, which wraps around at 2^32.
pub fn isn_from_hash(hash: u32, counter: u16) -> (isn: SeqNumber)
    ensures
        isn as int == (hash + counter) % 0x1_0000_0000,
{
    hash.wrapping_add(counter as u32)
}

/// Generates initial sequence numbers.
pub struct IsnGenerator {
    nonce: u32,
    counter: u16,
}

impl IsnGenerator {
    /// The secret of the generator.
    pub closed spec fn nonce(&self) -> u32 {
        self.nonce
    }

    /// How many numbers the generator has made, modulo 2^16.
    pub closed spec fn counter(&self) -> u16 {
        self.counter
    }

    /// A generator with the secret `nonce` that has made no number yet.
    pub fn new(nonce: u32) -> (generator: Self)
        ensures
            generator.nonce() == nonce,
            generator.counter() == 0,
    {
        Self { nonce, counter: 0 }
    }

    /// The initial sequence number of a new connection between `local` and
    /// `remote`: the checksum of the endpoints and the secret, plus the
    /// counter, which then goes up by one.
    pub fn generate(&mut self, local: &Endpoint, remote: &Endpoint) -> (isn: SeqNumber)
        ensures
            isn as int == (crc32_ieee(isn_input(*local, *remote, old(self).nonce())) + old(
                self,
            ).counter()) % 0x1_0000_0000,
            final(self).nonce() == old(self).nonce(),
            final(self).counter() as int == (old(self).counter() + 1) % 0x1_0000,
    {
        let mut input: Vec<u8> = Vec::new();
        push_u32(&mut input, remote.address());
        push_u16(&mut input, remote.port().into());
        push_u32(&mut input, local.address());
        push_u16(&mut input, local.port().into());
        push_u32(&mut input, self.nonce);
        assert(input@ =~= isn_input(*local, *remote, self.nonce));
        let hash = checksum_ieee(&input);
        let isn = isn_from_hash(hash, self.counter);
        self.counter = self.counter.wrapping_add(1);
        isn
    }
}

} // verus!
