//! The header of a UDP datagram: eight bytes that hold the two ports, the
//! length of the datagram and a checksum, each as a 16-bit number with its
//! high byte first.

use crate::fail::Fail;
use crate::protocols::ip::Port;
use crate::protocols::ipv4::{octets, octets_of, Ipv4Header};
use crate::runtime::RuntimeBuf;
use byteorder::{ByteOrder, NetworkEndian};
use vstd::prelude::*;
use vstd::slice::slice_subrange;

verus! {

/// Size of a UDP header (in bytes).
pub const UDP_HEADER_SIZE: usize = 8;

/// The number of UDP among the protocols that IPv4 carries.
pub const UDP_PROTOCOL: u32 = 17;

/// The 16-bit number whose high byte is `high` and whose low byte is `low`.
pub open spec fn be_u16(high: u8, low: u8) -> u16 {
    (high * 256 + low) as u16
}

/// The two bytes of `n`, the high byte first.
pub open spec fn be_bytes(n: u16) -> Seq<u8> {
    seq![(n / 256) as u8, (n % 256) as u8]
}

/// Calls `byteorder::NetworkEndian::read_u16`, which reads the first two
/// bytes of `buf` as a number with its high byte first, and panics where
/// `buf` is shorter.
#[verifier::external_body]
fn read_u16(buf: &[u8]) -> (n: u16)
    requires
        buf@.len() >= 2,
    ensures
        n == be_u16(buf@[0], buf@[1]),
{
    NetworkEndian::read_u16(buf)
}

/// Calls `byteorder::NetworkEndian::write_u16` on a buffer of two bytes,
/// which writes `n` there with its high byte first, and returns the buffer.
#[verifier::external_body]
fn write_u16(n: u16) -> (buf: Vec<u8>)
    ensures
        buf@ == be_bytes(n),
{
    let mut buf = vec![0u8; 2];
    NetworkEndian::write_u16(&mut buf, n);
    buf
}

/// Writes `n` to the two bytes of `buf` from `at` on, the high byte first.
fn put_u16(buf: &mut Vec<u8>, at: usize, n: u16)
    requires
        at + 2 <= old(buf)@.len(),
    ensures
        final(buf)@ == old(buf)@.update(at as int, (n / 256) as u8).update(
            at + 1,
            (n % 256) as u8,
        ),
{
    let bytes = write_u16(n);
    assert(at + 2 <= buf.len());
    buf[at] = bytes[0];
    buf[at + 1] = bytes[1];
}

/// The sum of the 16-bit numbers that `data` is made of, two bytes each, the
/// high byte first. A last byte without a partner counts as a high byte.
pub open spec fn word_sum(data: Seq<u8>) -> int
    decreases data.len(),
{
    if data.len() == 0 {
        0
    } else if data.len() % 2 == 1 {
        word_sum(data.drop_last()) + data.last() * 256
    } else {
        word_sum(data.take(data.len() - 2)) + be_u16(data[data.len() - 2], data.last())
    }
}

/// `sum` with what exceeds 16 bits added back in at the low end, as often as
/// it takes: the one's complement sum of the numbers that were added up.
pub open spec fn fold_carries(sum: int) -> int {
    if sum <= 0xffff {
        sum
    } else {
        (sum - 1) % 0xffff + 1
    }
}

/// The checksum of a datagram that travels between the addresses of
/// `ipv4_header`, has the ports and the length of `header`, and carries
/// `data`: the complement of the one's complement sum of the addresses, the
/// protocol number, the length of the datagram, the first three numbers of
/// the header, and the data.
pub open spec fn udp_checksum(ipv4_header: Ipv4Header, header: Seq<u8>, data: Seq<u8>) -> u16 {
    (0xffff - fold_carries(
        0xffff + word_sum(octets_of(ipv4_header.src_addr)) + word_sum(
            octets_of(ipv4_header.dst_addr),
        ) + UDP_PROTOCOL + (header.len() + data.len()) + word_sum(header.take(6)) + word_sum(data),
    )) as u16
}

/// The first six bytes of the header of a datagram from `src_port` to
/// `dst_port` that carries `payload_len` bytes. A datagram without a source
/// port has zero in its place.
pub open spec fn header_prefix(src_port: Option<Port>, dst_port: Port, payload_len: int) -> Seq<u8> {
    be_bytes(
        match src_port {
            Some(port) => port@,
            None => 0,
        },
    ) + be_bytes(dst_port@) + be_bytes((UDP_HEADER_SIZE + payload_len) as u16)
}

/// The eight bytes of the header of a datagram from `src_port` to `dst_port`
/// that carries `data` between the addresses of `ipv4_header`. The checksum
/// is zero where none is wanted.
pub open spec fn header_bytes(
    src_port: Option<Port>,
    dst_port: Port,
    ipv4_header: Ipv4Header,
    data: Seq<u8>,
    no_checksum: bool,
) -> Seq<u8> {
    let prefix = header_prefix(src_port, dst_port, data.len() as int);
    prefix + be_bytes(
        if no_checksum {
            0
        } else {
            udp_checksum(ipv4_header, prefix + seq![0u8, 0u8], data)
        },
    )
}

/// What is wrong with a datagram, if anything.
pub enum Verdict {
    /// The datagram is shorter than a header.
    TooSmall,
    /// The destination port is zero.
    NoDestination,
    /// The length in the header is not the length of the datagram.
    LengthMismatch,
    /// The checksum in the header is not the checksum of the datagram.
    ChecksumMismatch,
    /// Nothing.
    Valid,
}

/// What is wrong with the datagram `bytes` that arrived between the
/// addresses of `ipv4_header`. The checksum is looked at unless
/// `no_checksum` is set or the sender has left it zero.
pub open spec fn verdict(ipv4_header: Ipv4Header, bytes: Seq<u8>, no_checksum: bool) -> Verdict {
    if bytes.len() < UDP_HEADER_SIZE {
        Verdict::TooSmall
    } else if be_u16(bytes[2], bytes[3]) == 0 {
        Verdict::NoDestination
    } else if be_u16(bytes[4], bytes[5]) != bytes.len() {
        Verdict::LengthMismatch
    } else if !no_checksum && be_u16(bytes[6], bytes[7]) != 0 && be_u16(bytes[6], bytes[7])
        != udp_checksum(ipv4_header, bytes.take(8), bytes.skip(8)) {
        Verdict::ChecksumMismatch
    } else {
        Verdict::Valid
    }
}

/// The failure that a datagram with something wrong is refused with.
pub open spec fn is_refusal(fail: Fail, verdict: Verdict) -> bool {
    match verdict {
        Verdict::TooSmall => fail matches Fail::Malformed { details } && details@
            == "UDP segment too small"@,
        Verdict::NoDestination => fail matches Fail::OutOfRange { details } && details@
            == "port number may not be zero"@,
        Verdict::LengthMismatch => fail matches Fail::Malformed { details } && details@
            == "UDP length mismatch"@,
        Verdict::ChecksumMismatch => fail matches Fail::Malformed { details } && details@
            == "UDP checksum mismatch"@,
        Verdict::Valid => false,
    }
}

/// The ports of a datagram. Length and checksum are no part of this
/// structure: they are computed when a header is parsed or serialized.
#[derive(Debug)]
pub struct UdpHeader {
    /// Port used on sender side (optional).
    src_port: Option<Port>,
    /// Port used receiver side.
    dst_port: Port,
}

impl UdpHeader {
    /// The port used on the sender side, if the sender gave one.
    pub closed spec fn source(&self) -> Option<Port> {
        self.src_port
    }

    /// The port used on the receiver side.
    pub closed spec fn destination(&self) -> Port {
        self.dst_port
    }

    /// Creates a UDP header.
    pub fn new(src_port: Option<Port>, dst_port: Port) -> (header: Self)
        ensures
            header.source() == src_port,
            header.destination() == dst_port,
    {
        Self { src_port, dst_port }
    }

    /// Returns the source port stored in the target UDP header.
    pub fn src_port(&self) -> (port: Option<Port>)
        ensures
            port == self.source(),
    {
        self.src_port
    }

    /// Returns the destination port stored in the target UDP header.
    pub fn dest_port(&self) -> (port: Port)
        ensures
            port == self.destination(),
    {
        self.dst_port
    }

    /// Returns the size of the target UDP header (in bytes).
    pub fn size(&self) -> (size: usize)
        ensures
            size == UDP_HEADER_SIZE,
    {
        UDP_HEADER_SIZE
    }

    /// Parses a buffer into an UDP header and the payload behind it. A
    /// datagram with something wrong is refused. A source port of zero means
    /// that the sender gave none.
    pub fn parse<T: RuntimeBuf>(ipv4_header: &Ipv4Header, buf: T, no_chsecksum: bool) -> (parsed:
        Result<(Self, T), Fail>)
        ensures
            match parsed {
                Ok((header, payload)) => {
                    &&& verdict(*ipv4_header, buf.bytes(), no_chsecksum) is Valid
                    &&& header.source() matches Some(port) ==> port@ == be_u16(
                        buf.bytes()[0],
                        buf.bytes()[1],
                    )
                    &&& header.source() is None <==> be_u16(buf.bytes()[0], buf.bytes()[1]) == 0
                    &&& header.destination()@ == be_u16(buf.bytes()[2], buf.bytes()[3])
                    &&& payload.bytes() == buf.bytes().skip(UDP_HEADER_SIZE as int)
                },
                Err(fail) => is_refusal(fail, verdict(*ipv4_header, buf.bytes(), no_chsecksum)),
            },
    {
        let mut buf = buf;
        // Malformed header.
        if buf.len() < UDP_HEADER_SIZE {
            return Err(Fail::Malformed { details: "UDP segment too small" });
        }
        // Deserialize buffer.
        let bytes = buf.as_slice();
        let hdr_buf = slice_subrange(bytes, 0, UDP_HEADER_SIZE);
        let src_port = match Port::try_from(read_u16(slice_subrange(hdr_buf, 0, 2))) {
            Ok(port) => Some(port),
            Err(_) => None,
        };
        let dst_port = match Port::try_from(read_u16(slice_subrange(hdr_buf, 2, 4))) {
            Ok(port) => port,
            Err(fail) => {
                return Err(fail);
            },
        };
        let length = read_u16(slice_subrange(hdr_buf, 4, 6)) as usize;
        if length != bytes.len() {
            return Err(Fail::Malformed { details: "UDP length mismatch" });
        }
        // Verify payload.
        if !no_chsecksum {
            let payload_buf = slice_subrange(bytes, UDP_HEADER_SIZE, bytes.len());
            let checksum = read_u16(slice_subrange(hdr_buf, 6, 8));
            assert(hdr_buf@ =~= bytes@.take(8));
            assert(payload_buf@ =~= bytes@.skip(8));
            if checksum != 0 && checksum != Self::checksum(ipv4_header, hdr_buf, payload_buf) {
                return Err(Fail::Malformed { details: "UDP checksum mismatch" });
            }
        }
        let header = Self::new(src_port, dst_port);
        buf.adjust(UDP_HEADER_SIZE);
        Ok((header, buf))
    }

    /// Serializes the target UDP header into the first eight bytes of `buf`,
    /// for a datagram that carries `data` between the addresses of
    /// `ipv4_hdr`.
    pub fn serialize(&self, buf: &mut Vec<u8>, ipv4_hdr: &Ipv4Header, data: &[u8], no_chsecksum: bool)
        requires
            old(buf)@.len() >= UDP_HEADER_SIZE,
            UDP_HEADER_SIZE + data@.len() <= 0xffff,
        ensures
            final(buf)@ == header_bytes(
                self.source(),
                self.destination(),
                *ipv4_hdr,
                data@,
                no_chsecksum,
            ) + old(buf)@.skip(UDP_HEADER_SIZE as int),
    {
        // Source port.
        let src_port: u16 = match self.src_port {
            Some(port) => port.into(),
            None => 0,
        };
        put_u16(buf, 0, src_port);
        // Destination port.
        put_u16(buf, 2, self.dst_port.into());
        // Payload length.
        put_u16(buf, 4, (UDP_HEADER_SIZE + data.len()) as u16);
        // Checksum.
        let ghost prefix = header_prefix(self.src_port, self.dst_port, data@.len() as int);
        let checksum = if no_chsecksum {
            0
        } else {
            let fixed_buf = slice_subrange(buf.as_slice(), 0, UDP_HEADER_SIZE);
            proof {
                assert(fixed_buf@.take(6) =~= prefix);
                assert((prefix + seq![0u8, 0u8]).take(6) =~= prefix);
            }
            Self::checksum(ipv4_hdr, fixed_buf, data)
        };
        put_u16(buf, 6, checksum);
        assert(buf@ =~= header_bytes(self.src_port, self.dst_port, *ipv4_hdr, data@, no_chsecksum)
            + old(buf)@.skip(UDP_HEADER_SIZE as int));
    }

    /// Computes the checksum of an UDP packet.
    ///
    /// This is the 16-bit one's complement of the one's complement sum of a
    /// pseudo header of information from the IP header, the UDP header, and
    /// the data, padded with zero octets at the end (if necessary) to make a
    /// multiple of two octets.
    fn checksum(ipv4_header: &Ipv4Header, header: &[u8], data: &[u8]) -> (sum: u16)
        requires
            header@.len() == UDP_HEADER_SIZE,
            UDP_HEADER_SIZE + data@.len() <= 0xffff,
        ensures
            sum == udp_checksum(*ipv4_header, header@, data@),
    {
        let mut state: u32 = 0xffff;
        // Source address (4 bytes)
        let src_octets = octets(ipv4_header.src_addr);
        state += read_u16(slice_subrange(src_octets.as_slice(), 0, 2)) as u32;
        state += read_u16(slice_subrange(src_octets.as_slice(), 2, 4)) as u32;
        // Destination address (4 bytes)
        let dst_octets = octets(ipv4_header.dst_addr);
        state += read_u16(slice_subrange(dst_octets.as_slice(), 0, 2)) as u32;
        state += read_u16(slice_subrange(dst_octets.as_slice(), 2, 4)) as u32;
        // Padding zeros (1 byte) and UDP protocol number (1 byte)
        state += UDP_PROTOCOL;
        // UDP segment length (2 bytes)
        state += (header.len() + data.len()) as u32;
        // Source port (2 bytes)
        state += read_u16(slice_subrange(header, 0, 2)) as u32;
        // Destination port (2 bytes)
        state += read_u16(slice_subrange(header, 2, 4)) as u32;
        // Payload Length (2 bytes)
        state += read_u16(slice_subrange(header, 4, 6)) as u32;
        proof {
            lemma_word_sum_of_four(octets_of(ipv4_header.src_addr));
            lemma_word_sum_of_four(octets_of(ipv4_header.dst_addr));
            lemma_word_sum_of_six(header@.take(6));
        }
        let ghost base = state as int;
        // Payload.
        let mut i: usize = 0;
        while i + 1 < data.len()
            invariant
                i <= data@.len(),
                i % 2 == 0,
                data@.len() + UDP_HEADER_SIZE <= 0xffff,
                0xffff <= base <= 0xffff * 10,
                state == base + word_sum(data@.take(i as int)),
                0 <= word_sum(data@.take(i as int)) <= 0xffff * (i / 2),
            decreases data@.len() - i,
        {
            proof {
                let longer = data@.take(i + 2);
                assert(longer.take(longer.len() - 2) =~= data@.take(i as int));
            }
            state += read_u16(slice_subrange(data, i, i + 2)) as u32;
            i += 2;
        }
        // Pad with zeros with payload has an odd number of bytes.
        if i < data.len() {
            proof {
                assert(data@.drop_last() =~= data@.take(i as int));
            }
            let mut padded: Vec<u8> = Vec::new();
            padded.push(data[i]);
            padded.push(0);
            state += read_u16(padded.as_slice()) as u32;
        } else {
            assert(data@.take(i as int) =~= data@);
        }
        let ghost total = state as int;
        while state > 0xFFFF
            invariant
                state >= 1,
                fold_carries(state as int) == fold_carries(total),
            decreases state,
        {
            state -= 0xFFFF;
        }
        assert(!state as u16 == 0xffff - state) by (bit_vector)
            requires
                state <= 0xffff,
        ;
        #[verifier::truncate]
        (!state as u16)
    }
}

/// A header that was serialized in front of its data is parsed back to the
/// same ports and the same data, whether or not a checksum was written and
/// whether or not it is looked at.
pub proof fn lemma_serialized_header_parses(
    src_port: Option<Port>,
    dst_port: Port,
    ipv4_header: Ipv4Header,
    data: Seq<u8>,
    written_without_checksum: bool,
    read_without_checksum: bool,
)
    requires
        dst_port@ != 0,
        UDP_HEADER_SIZE + data.len() <= 0xffff,
    ensures
        ({
            let bytes = header_bytes(
                src_port,
                dst_port,
                ipv4_header,
                data,
                written_without_checksum,
            ) + data;
            &&& verdict(ipv4_header, bytes, read_without_checksum) is Valid
            &&& be_u16(bytes[0], bytes[1]) == match src_port {
                Some(port) => port@,
                None => 0,
            }
            &&& be_u16(bytes[2], bytes[3]) == dst_port@
            &&& bytes.skip(UDP_HEADER_SIZE as int) == data
        }),
{
    let prefix = header_prefix(src_port, dst_port, data.len() as int);
    let header = header_bytes(src_port, dst_port, ipv4_header, data, written_without_checksum);
    let bytes = header + data;
    assert(bytes.skip(8) =~= data);
    assert(bytes.take(8) =~= header);
    assert(header.take(6) =~= prefix);
    assert((prefix + seq![0u8, 0u8]).take(6) =~= prefix);
}

proof fn lemma_word_sum_of_four(bytes: Seq<u8>)
    requires
        bytes.len() == 4,
    ensures
        word_sum(bytes) == be_u16(bytes[0], bytes[1]) + be_u16(bytes[2], bytes[3]),
{
    let front = bytes.take(2);
    assert(front.take(0).len() == 0);
    assert(word_sum(front) == word_sum(front.take(0)) + be_u16(front[0], front[1]));
    assert(word_sum(front.take(0)) == 0);
}

proof fn lemma_word_sum_of_six(bytes: Seq<u8>)
    requires
        bytes.len() == 6,
    ensures
        word_sum(bytes) == be_u16(bytes[0], bytes[1]) + be_u16(bytes[2], bytes[3]) + be_u16(
            bytes[4],
            bytes[5],
        ),
{
    let front = bytes.take(4);
    lemma_word_sum_of_four(front);
}

} // verus!
