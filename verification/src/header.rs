//! The fixed-size header that precedes every frame payload on the wire.
//!
//! Layout (all fields little-endian `u32`):
//! bytes 0..4 width, bytes 4..8 height, bytes 8..12 payload length.
use vstd::prelude::*;

verus! {

/// Number of bytes of an encoded [`Header`].
pub const HEADER_SIZE: usize = 12;

/// Describes the frame payload that follows on the wire.
pub struct Header {
    pub width: u32,
    pub height: u32,
    pub payload_len: u32,
}

/// The four bytes of `x`, least significant first.
pub open spec fn u32_le_bytes(x: u32) -> Seq<u8> {
    seq![
        (x % 0x100) as u8,
        ((x / 0x100) % 0x100) as u8,
        ((x / 0x1_0000) % 0x100) as u8,
        (x / 0x100_0000) as u8,
    ]
}

/// The `u32` whose little-endian bytes are `s[at..at + 4]`.
pub open spec fn u32_from_le(s: Seq<u8>, at: int) -> u32 {
    (s[at] + 0x100 * s[at + 1] + 0x1_0000 * s[at + 2] + 0x100_0000 * s[at + 3]) as u32
}

/// The wire form of a header.
pub open spec fn header_bytes(h: Header) -> Seq<u8> {
    u32_le_bytes(h.width) + u32_le_bytes(h.height) + u32_le_bytes(h.payload_len)
}

/// The header read from the first twelve bytes of `s`.
pub open spec fn header_from_bytes(s: Seq<u8>) -> Header {
    Header {
        width: u32_from_le(s, 0),
        height: u32_from_le(s, 4),
        payload_len: u32_from_le(s, 8),
    }
}

proof fn lemma_u32_le_roundtrip(x: u32)
    ensures
        u32_from_le(u32_le_bytes(x), 0) == x,
{
    assert(x % 0x100 + 0x100 * ((x / 0x100) % 0x100) + 0x1_0000 * ((x / 0x1_0000) % 0x100)
        + 0x100_0000 * (x / 0x100_0000) == x);
}

proof fn lemma_le_u32_roundtrip(b0: u8, b1: u8, b2: u8, b3: u8)
    ensures
        u32_le_bytes((b0 + 0x100 * b1 + 0x1_0000 * b2 + 0x100_0000 * b3) as u32)
            == seq![b0, b1, b2, b3],
{
    let x = (b0 + 0x100 * b1 + 0x1_0000 * b2 + 0x100_0000 * b3) as u32;
    assert(x == b0 + 0x100 * b1 + 0x1_0000 * b2 + 0x100_0000 * b3);
    assert(x % 0x100 == b0);
    assert((x / 0x100) % 0x100 == b1);
    assert((x / 0x1_0000) % 0x100 == b2);
    assert(x / 0x100_0000 == b3);
    assert(u32_le_bytes(x) =~= seq![b0, b1, b2, b3]);
}

/// A header takes [`HEADER_SIZE`] bytes on the wire, and decoding its
/// encoding gives the header back.
pub proof fn lemma_decode_encode(h: Header)
    ensures
        header_bytes(h).len() == HEADER_SIZE,
        header_from_bytes(header_bytes(h)) == h,
{
    lemma_u32_le_roundtrip(h.width);
    lemma_u32_le_roundtrip(h.height);
    lemma_u32_le_roundtrip(h.payload_len);
    let s = header_bytes(h);
    assert(s.subrange(0, 4) =~= u32_le_bytes(h.width));
    assert(s.subrange(4, 8) =~= u32_le_bytes(h.height));
    assert(s.subrange(8, 12) =~= u32_le_bytes(h.payload_len));
    assert(u32_from_le(s, 4) == u32_from_le(u32_le_bytes(h.height), 0));
    assert(u32_from_le(s, 8) == u32_from_le(u32_le_bytes(h.payload_len), 0));
}

/// Encoding the header read from twelve bytes gives those bytes back.
pub proof fn lemma_encode_decode(s: Seq<u8>)
    requires
        s.len() == HEADER_SIZE,
    ensures
        header_bytes(header_from_bytes(s)) == s,
{
    lemma_le_u32_roundtrip(s[0], s[1], s[2], s[3]);
    lemma_le_u32_roundtrip(s[4], s[5], s[6], s[7]);
    lemma_le_u32_roundtrip(s[8], s[9], s[10], s[11]);
    assert(header_bytes(header_from_bytes(s)) =~= s);
}

fn read_u32_le(bytes: &[u8; HEADER_SIZE], at: usize) -> (x: u32)
    requires
        at + 4 <= HEADER_SIZE,
    ensures
        x == u32_from_le(bytes@, at as int),
{
    let b0 = bytes[at] as u32;
    let b1 = bytes[at + 1] as u32;
    let b2 = bytes[at + 2] as u32;
    let b3 = bytes[at + 3] as u32;
    b0 + b1 * 0x100 + b2 * 0x1_0000 + b3 * 0x100_0000
}

impl<'a> From<&'a [u8; HEADER_SIZE]> for Header {
    /// Reads a header from its wire form.
    fn from(bytes: &'a [u8; HEADER_SIZE]) -> (h: Header)
        ensures
            h == header_from_bytes(bytes@),
    {
        let width = read_u32_le(bytes, 0);
        let height = read_u32_le(bytes, 4);
        let payload_len = read_u32_le(bytes, 8);
        Header { width, height, payload_len }
    }
}

impl<'a> vstd::std_specs::convert::FromSpecImpl<&'a [u8; HEADER_SIZE]> for Header {
    open spec fn obeys_from_spec() -> bool {
        true
    }

    open spec fn from_spec(bytes: &'a [u8; HEADER_SIZE]) -> Header {
        header_from_bytes(bytes@)
    }
}

impl From<Header> for [u8; HEADER_SIZE] {
    /// Writes the header in its wire form.
    fn from(header: Header) -> (bytes: [u8; HEADER_SIZE])
        ensures
            bytes@ == header_bytes(header),
    {
        let w = header.width;
        let h = header.height;
        let p = header.payload_len;
        let bytes: [u8; HEADER_SIZE] = [
            (w % 0x100) as u8,
            ((w / 0x100) % 0x100) as u8,
            ((w / 0x1_0000) % 0x100) as u8,
            (w / 0x100_0000) as u8,
            (h % 0x100) as u8,
            ((h / 0x100) % 0x100) as u8,
            ((h / 0x1_0000) % 0x100) as u8,
            (h / 0x100_0000) as u8,
            (p % 0x100) as u8,
            ((p / 0x100) % 0x100) as u8,
            ((p / 0x1_0000) % 0x100) as u8,
            (p / 0x100_0000) as u8,
        ];
        assert(bytes@ =~= header_bytes(header));
        bytes
    }
}

impl vstd::std_specs::convert::FromSpecImpl<Header> for [u8; HEADER_SIZE] {
    open spec fn obeys_from_spec() -> bool {
        true
    }

    open spec fn from_spec(header: Header) -> [u8; HEADER_SIZE] {
        choose|bytes: [u8; HEADER_SIZE]| bytes@ == header_bytes(header)
    }
}

} // verus!
