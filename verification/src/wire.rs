//! The discovery packet: one magic byte, a big-endian 16-bit declared length
//! and the sixteen octets of the sender's IPv6 address.
//!
//! An address is held as the 128-bit number whose big-endian bytes are the
//! address octets, the number that `Ipv6Addr::to_bits` gives.

use byteorder::{BigEndian, ReadBytesExt};
use bytes::BufMut;
use vstd::prelude::*;

verus! {

/// The magic byte that opens every discovery packet.
pub const MSG_IM_HERE: u8 = 0x5b;

/// The size of a discovery packet on the wire: three header bytes and sixteen
/// address octets. It is the value of the declared-length field that the
/// encoder writes, and the least value that the decoder accepts.
pub const MSG_IM_HERE_LEN: u16 = 19;

/// The big-endian value of two bytes.
pub open spec fn be16(hi: u8, lo: u8) -> u16 {
    (hi as u16 * 256 + lo as u16) as u16
}

/// The `i`-th octet of an address, in address order (octet 0 is the most
/// significant byte).
pub open spec fn octet(addr: u128, i: int) -> u8 {
    ((addr >> ((120 - 8 * i) as u128)) & 0xff) as u8
}

/// The sixteen octets of an address, in address order.
pub open spec fn octets(addr: u128) -> Seq<u8> {
    Seq::new(16, |i: int| octet(addr, i))
}

/// Appends one byte to `buf` with `bytes::BufMut::put_u8`. The contract
/// claims that the buffer afterwards is the old one followed by `n`. The call
/// grows a full buffer by sixty-four bytes and panics when it cannot, which
/// `requires` excludes.
#[verifier::external_body]
fn put_u8(buf: &mut Vec<u8>, n: u8)
    requires
        old(buf)@.len() + 64 <= isize::MAX,
    ensures
        final(buf)@ == old(buf)@.push(n),
{
    buf.put_u8(n);
}

/// Appends a 16-bit integer to `buf` in big-endian order with
/// `bytes::BufMut::put_u16_be`. The contract claims that the buffer
/// afterwards is the old one followed by the high byte and then the low byte
/// of `n`. The call grows a full buffer by sixty-four bytes and panics when it
/// cannot, which `requires` excludes.
#[verifier::external_body]
fn put_u16_be(buf: &mut Vec<u8>, n: u16)
    requires
        old(buf)@.len() + 64 <= isize::MAX,
    ensures
        final(buf)@ == old(buf)@.push((n / 256) as u8).push((n % 256) as u8),
{
    buf.put_u16_be(n);
}

/// Reads one byte of `buf` at offset `at` with
/// `byteorder::ReadBytesExt::read_u8`, on the rest of the buffer as a reader.
/// The contract claims that the byte at `at` comes back when the buffer holds
/// one there, and nothing when the buffer ends before it.
#[verifier::external_body]
fn read_u8_at(buf: &[u8], at: usize) -> (r: Option<u8>)
    requires
        at <= buf@.len(),
    ensures
        r == (if at < buf@.len() {
            Some(buf@[at as int])
        } else {
            None
        }),
{
    let mut rest = &buf[at..];
    rest.read_u8().ok()
}

/// Reads a big-endian 16-bit integer of `buf` at offset `at` with
/// `byteorder::ReadBytesExt::read_u16::<BigEndian>`, on the rest of the buffer
/// as a reader. The contract claims that the value of the two bytes at `at`
/// comes back when the buffer holds both, and nothing when it ends before.
#[verifier::external_body]
fn read_u16_be_at(buf: &[u8], at: usize) -> (r: Option<u16>)
    requires
        at <= buf@.len(),
    ensures
        r == (if at + 2 <= buf@.len() {
            Some(be16(buf@[at as int], buf@[at + 1]))
        } else {
            None
        }),
{
    let mut rest = &buf[at..];
    rest.read_u16::<BigEndian>().ok()
}

/// The packet that announces `addr`: magic, declared length, address octets.
pub open spec fn im_here_packet(addr: u128) -> Seq<u8> {
    seq![MSG_IM_HERE, (MSG_IM_HERE_LEN / 256) as u8, (MSG_IM_HERE_LEN % 256) as u8] + octets(
        addr,
    )
}

/// Creates an ImHere packet with a very simple binary layout:
/// magic <u8>, message size <u16>, then the IPv6 address <u128>.
pub fn encode_im_here(addr: u128) -> (buf: Vec<u8>)
    ensures
        buf@ == im_here_packet(addr),
{
    let mut buf: Vec<u8> = Vec::new();
    put_u8(&mut buf, MSG_IM_HERE);
    put_u16_be(&mut buf, MSG_IM_HERE_LEN);
    let ghost header = buf@;
    let mut i: usize = 0;
    while i < 16
        invariant
            i <= 16,
            header.len() == 3,
            buf@ == header + octets(addr).take(i as int),
        decreases 16 - i,
    {
        let shift: u128 = 120 - 8 * (i as u128);
        let masked: u128 = (addr >> shift) & 0xff;
        assert(masked < 256) by (bit_vector)
            requires
                masked == (addr >> shift) & 0xff,
        ;
        let b: u8 = masked as u8;
        put_u8(&mut buf, b);
        assert(octets(addr).take(i + 1) == octets(addr).take(i as int).push(b));
        i += 1;
    }
    assert(octets(addr).take(16) == octets(addr));
    buf
}

/// Why a datagram is not a discovery packet.
#[derive(Debug, Clone, Copy, PartialEq, Eq, Structural)]
pub enum DecodeError {
    /// The buffer holds no bytes.
    Empty,
    /// The first byte is not the magic byte.
    BadMagic,
    /// The buffer ends before the declared length or the address does.
    Truncated,
    /// The declared length is below the size of a discovery packet.
    TooSmall,
    /// The address is unspecified, loopback or multicast.
    InvalidAddress,
}

/// The address whose octets, in address order, are `s`.
pub open spec fn address_of(s: Seq<u8>) -> u128
    decreases s.len(),
{
    if s.len() == 0 {
        0
    } else {
        (address_of(s.drop_last()) << 8) | (s.last() as u128)
    }
}

/// An address that a peer can be reached at: not the unspecified address
/// `::`, not the loopback address `::1`, not a multicast address `ff00::/8`.
pub open spec fn is_routable(addr: u128) -> bool {
    addr != 0 && addr != 1 && octet(addr, 0) != 0xff
}

/// What decoding `buf` gives. The checks come in this order: the buffer is
/// not empty; the magic byte matches; the declared length is read and is at
/// least the size of a discovery packet; the sixteen address octets are
/// there; the address is routable. Bytes after the address are ignored.
pub open spec fn decoded_im_here(buf: Seq<u8>) -> Result<u128, DecodeError> {
    if buf.len() == 0 {
        Err(DecodeError::Empty)
    } else if buf[0] != MSG_IM_HERE {
        Err(DecodeError::BadMagic)
    } else if buf.len() < 3 {
        Err(DecodeError::Truncated)
    } else if be16(buf[1], buf[2]) < MSG_IM_HERE_LEN {
        Err(DecodeError::TooSmall)
    } else if buf.len() < 19 {
        Err(DecodeError::Truncated)
    } else if !is_routable(address_of(buf.subrange(3, 19))) {
        Err(DecodeError::InvalidAddress)
    } else {
        Ok(address_of(buf.subrange(3, 19)))
    }
}

/// Appending a big-endian group of two octets shifts the address by sixteen
/// bits.
proof fn lemma_address_of_group(s: Seq<u8>, from: int, upto: int)
    requires
        0 <= from <= upto,
        upto + 2 <= s.len(),
    ensures
        address_of(s.subrange(from, upto + 2)) == (address_of(s.subrange(from, upto)) << 16) | (
        be16(s[upto], s[upto + 1]) as u128),
{
    let two = s.subrange(from, upto + 2);
    let one = s.subrange(from, upto + 1);
    let none = s.subrange(from, upto);
    assert(two.drop_last() == one);
    assert(one.drop_last() == none);
    let a = address_of(none);
    let hi = s[upto];
    let lo = s[upto + 1];
    assert(address_of(one) == (a << 8) | (hi as u128));
    assert(address_of(two) == (address_of(one) << 8) | (lo as u128));
    let group = be16(hi, lo);
    assert((((a << 8) | (hi as u128)) << 8) | (lo as u128) == (a << 16) | (group as u128))
        by (bit_vector)
        requires
            group == (hi as u16 * 256 + lo as u16) as u16,
    ;
}

/// Reads a discovery packet and gives the address that it announces.
pub fn decode_im_here(buf: &Vec<u8>) -> (r: Result<u128, DecodeError>)
    ensures
        r == decoded_im_here(buf@),
{
    let bytes = buf.as_slice();
    let packet_magic = match read_u8_at(bytes, 0) {
        Some(m) => m,
        None => {
            return Err(DecodeError::Empty);
        },
    };
    if packet_magic != MSG_IM_HERE {
        return Err(DecodeError::BadMagic);
    }
    let packet_size = match read_u16_be_at(bytes, 1) {
        Some(n) => n,
        None => {
            return Err(DecodeError::Truncated);
        },
    };
    // The packet must hold all that is expected of it; bytes after that are
    // left alone, so that later versions can add to it.
    if packet_size < MSG_IM_HERE_LEN {
        return Err(DecodeError::TooSmall);
    }
    if bytes.len() < 19 {
        return Err(DecodeError::Truncated);
    }
    let mut peer_address: u128 = 0;
    let mut k: usize = 0;
    while k < 8
        invariant
            k <= 8,
            bytes@ == buf@,
            bytes@.len() >= 19,
            peer_address == address_of(buf@.subrange(3, 3 + 2 * k)),
        decreases 8 - k,
    {
        let group = match read_u16_be_at(bytes, 3 + 2 * k) {
            Some(g) => g,
            None => {
                return Err(DecodeError::Truncated);
            },
        };
        proof {
            lemma_address_of_group(buf@, 3, 3 + 2 * k);
        }
        peer_address = (peer_address << 16) | (group as u128);
        k += 1;
    }
    if !routable(peer_address) {
        return Err(DecodeError::InvalidAddress);
    }
    Ok(peer_address)
}

/// Whether a peer can be reached at `addr`.
pub fn routable(addr: u128) -> (r: bool)
    ensures
        r == is_routable(addr),
{
    let first: u128 = (addr >> 120) & 0xff;
    assert(first < 256) by (bit_vector)
        requires
            first == (addr >> 120) & 0xff,
    ;
    addr != 0 && addr != 1 && first != 0xff
}

/// The first `k` octets of an address make up its `8 * k` leading bits.
proof fn lemma_address_of_prefix(addr: u128, k: int)
    requires
        1 <= k <= 16,
    ensures
        address_of(octets(addr).take(k)) == addr >> ((128 - 8 * k) as u128),
    decreases k,
{
    let prefix = octets(addr).take(k);
    let shift = (128 - 8 * k) as u128;
    let last = octet(addr, k - 1);
    assert(prefix.drop_last() == octets(addr).take(k - 1));
    assert(prefix.last() == last);
    let masked = (addr >> shift) & 0xff;
    assert(masked < 256) by (bit_vector)
        requires
            masked == (addr >> shift) & 0xff,
    ;
    assert(last as u128 == masked);
    if k == 1 {
        assert(address_of(octets(addr).take(0)) == 0);
        assert((0u128 << 8) | ((addr >> 120) & 0xff) == addr >> 120) by (bit_vector);
    } else {
        lemma_address_of_prefix(addr, k - 1);
        let before = addr >> ((shift + 8) as u128);
        assert((before << 8) | masked == addr >> shift) by (bit_vector)
            requires
                shift <= 112,
                before == addr >> ((shift + 8) as u128),
                masked == (addr >> shift) & 0xff,
        ;
    }
}

/// An address is the one that its sixteen octets spell.
pub proof fn lemma_address_of_octets(addr: u128)
    ensures
        address_of(octets(addr)) == addr,
{
    lemma_address_of_prefix(addr, 16);
    assert(octets(addr).take(16) == octets(addr));
    assert(addr >> 0 == addr) by (bit_vector);
}

/// Round trip: decoding the packet that announces a routable address gives
/// that address back.
pub proof fn lemma_decode_encode_round_trip(addr: u128)
    requires
        is_routable(addr),
    ensures
        decoded_im_here(im_here_packet(addr)) == Ok::<u128, DecodeError>(addr),
{
    let packet = im_here_packet(addr);
    assert(packet.len() == 19);
    assert(packet[0] == MSG_IM_HERE);
    assert(packet[1] == 0 && packet[2] == 19);
    assert(packet.subrange(3, 19) == octets(addr));
    lemma_address_of_octets(addr);
}

/// Rejection: a buffer that is empty, that opens with another byte than the
/// magic byte, or whose declared length is below the size of a discovery
/// packet, does not decode, whatever else it holds.
pub proof fn lemma_decode_rejects(buf: Seq<u8>)
    ensures
        buf.len() == 0 ==> decoded_im_here(buf) == Err::<u128, DecodeError>(DecodeError::Empty),
        buf.len() > 0 && buf[0] != MSG_IM_HERE ==> decoded_im_here(buf) == Err::<
            u128,
            DecodeError,
        >(DecodeError::BadMagic),
        buf.len() >= 3 && buf[0] == MSG_IM_HERE && be16(buf[1], buf[2]) < MSG_IM_HERE_LEN
            ==> decoded_im_here(buf) == Err::<u128, DecodeError>(DecodeError::TooSmall),
        decoded_im_here(buf) is Ok ==> buf.len() >= 19 && is_routable(decoded_im_here(buf)->Ok_0),
{
}

} // verus!
