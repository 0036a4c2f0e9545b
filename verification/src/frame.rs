//! The frames that carry logical packets in datagrams.
//!
//! A frame is a kind byte and the 16-byte id of the network that it is bound to,
//! then either one whole packet, or a segment header and one segment of a packet.

use crate::octets::slice;
use vstd::prelude::*;

verus! {

/// Kind byte of a frame that holds one whole packet.
pub const KIND_SINGLE: u8 = 1;

/// Kind byte of a frame that holds one segment.
pub const KIND_SEGMENT: u8 = 2;

/// Bytes ahead of the packet in a single frame.
pub const SINGLE_OVERHEAD: usize = 17;

/// Bytes ahead of the segment in a segment frame.
pub const SEGMENT_OVERHEAD: usize = 27;

/// Longest logical packet.
pub const MAX_LOGICAL_LEN: usize = 9000;

/// Most segments of one logical packet.
pub const MAX_SEGMENTS: usize = 16;

/// Which segment of which packet a frame holds.
#[derive(Debug, Clone, Copy, PartialEq, Eq, Structural)]
pub struct SegmentHeader {
    pub id: u32,
    pub index: u16,
    pub count: u16,
    pub total: u16,
}

/// A decoded frame.
#[derive(Debug)]
pub enum Frame {
    Single { net: u128, payload: Vec<u8> },
    Segment { net: u128, header: SegmentHeader, payload: Vec<u8> },
}

/// A segment that the limits rule out.
pub open spec fn malformed(h: SegmentHeader, len: nat) -> bool {
    ||| h.total == 0
    ||| h.total > MAX_LOGICAL_LEN
    ||| !(2 <= h.count <= MAX_SEGMENTS)
    ||| h.index >= h.count
    ||| len == 0
    ||| len > h.total
}

pub fn is_malformed(h: &SegmentHeader, len: usize) -> (b: bool)
    ensures
        b == malformed(*h, len as nat),
{
    h.total == 0 || h.total as usize > MAX_LOGICAL_LEN || h.count < 2 || h.count as usize
        > MAX_SEGMENTS || h.index >= h.count || len == 0 || len > h.total as usize
}

/// A number as `n` bytes, most significant first.
pub open spec fn big_endian(v: nat, n: nat) -> Seq<u8>
    decreases n,
{
    if n == 0 {
        Seq::empty()
    } else {
        big_endian(v / 256, (n - 1) as nat).push((v % 256) as u8)
    }
}

/// The number that bytes stand for, most significant first.
pub open spec fn number(s: Seq<u8>) -> nat
    decreases s.len(),
{
    if s.len() == 0 {
        0
    } else {
        number(s.drop_last()) * 256 + s.last() as nat
    }
}

/// What `n` bytes can hold.
pub open spec fn span(n: nat) -> nat
    decreases n,
{
    if n == 0 {
        1
    } else {
        256 * span((n - 1) as nat)
    }
}

proof fn lemma_number(v: nat, n: nat)
    requires
        v < span(n),
    ensures
        big_endian(v, n).len() == n,
        number(big_endian(v, n)) == v,
    decreases n,
{
    if n > 0 {
        lemma_number(v / 256, (n - 1) as nat);
        let s = big_endian(v, n);
        assert(s.drop_last() =~= big_endian(v / 256, (n - 1) as nat));
    }
}

proof fn lemma_number_bound(s: Seq<u8>)
    ensures
        number(s) < span(s.len()),
    decreases s.len(),
{
    if s.len() > 0 {
        lemma_number_bound(s.drop_last());
    }
}

pub proof fn lemma_spans()
    ensures
        span(2) == 0x1_0000,
        span(4) == 0x1_0000_0000,
        span(16) == 0x1_0000_0000_0000_0000_0000_0000_0000_0000,
{
    reveal_with_fuel(span, 17);
}

/// Reads `n` bytes as a number.
fn read_number(data: &[u8], at: usize, n: usize) -> (v: u128)
    requires
        at + n <= data@.len(),
        n <= 16,
    ensures
        v == number(data@.subrange(at as int, at + n)),
{
    let mut v: u128 = 0;
    let mut i: usize = 0;
    let len: usize = data.len();
    while i < n
        invariant
            i <= n <= 16,
            at + n <= len,
            len == data@.len(),
            v == number(data@.subrange(at as int, at + i)),
        decreases n - i,
    {
        proof {
            let s = data@.subrange(at as int, at + i + 1);
            assert(s.drop_last() =~= data@.subrange(at as int, at + i));
            lemma_number_bound(s);
            lemma_spans();
            reveal_with_fuel(span, 17);
            assert(span(s.len()) <= span(16));
        }
        v = v * 256 + data[at + i] as u128;
        i += 1;
    }
    v
}

/// Appends a number as `n` bytes.
pub fn write_number(out: &mut Vec<u8>, v: u128, n: usize)
    requires
        n <= 16,
        v < span(n as nat),
    ensures
        final(out)@ == old(out)@ + big_endian(v as nat, n as nat),
    decreases n,
{
    if n > 0 {
        write_number(out, v / 256, n - 1);
        let ghost head = big_endian((v / 256) as nat, (n - 1) as nat);
        let ghost before = out@;
        out.push((v % 256) as u8);
        assert(out@ =~= old(out)@ + head.push((v % 256) as u8));
    } else {
        assert(out@ =~= old(out)@ + Seq::<u8>::empty());
    }
}

/// The bytes ahead of a segment.
pub open spec fn segment_prefix(net: u128, h: SegmentHeader) -> Seq<u8> {
    seq![KIND_SEGMENT] + big_endian(net as nat, 16) + big_endian(h.id as nat, 4) + big_endian(
        h.index as nat,
        2,
    ) + big_endian(h.count as nat, 2) + big_endian(h.total as nat, 2)
}

/// Writes the bytes ahead of a segment.
pub fn encode_segment_prefix(net: u128, h: SegmentHeader) -> (out: Vec<u8>)
    ensures
        out@ == segment_prefix(net, h),
        out@.len() == SEGMENT_OVERHEAD,
{
    proof {
        lemma_spans();
        lemma_number(net as nat, 16);
        lemma_number(h.id as nat, 4);
        lemma_number(h.index as nat, 2);
        lemma_number(h.count as nat, 2);
        lemma_number(h.total as nat, 2);
    }
    let mut out: Vec<u8> = Vec::new();
    out.push(KIND_SEGMENT);
    assert(out@ =~= seq![KIND_SEGMENT]);
    write_number(&mut out, net, 16);
    write_number(&mut out, h.id as u128, 4);
    write_number(&mut out, h.index as u128, 2);
    write_number(&mut out, h.count as u128, 2);
    write_number(&mut out, h.total as u128, 2);
    out
}

/// The header that a segment frame's bytes hold.
pub open spec fn header_at(data: Seq<u8>) -> SegmentHeader {
    SegmentHeader {
        id: number(data.subrange(17, 21)) as u32,
        index: number(data.subrange(21, 23)) as u16,
        count: number(data.subrange(23, 25)) as u16,
        total: number(data.subrange(25, 27)) as u16,
    }
}

pub open spec fn net_at(data: Seq<u8>) -> u128 {
    number(data.subrange(1, 17)) as u128
}

/// Reads a frame. `None` where the kind is unknown, the frame is cut short, or the
/// segment breaks the limits.
pub fn decode_frame(data: &[u8]) -> (f: Option<Frame>)
    ensures
        f matches Some(Frame::Single { net, payload }) ==> data@.len() > SINGLE_OVERHEAD && data@[0]
            == KIND_SINGLE && net == net_at(data@) && payload@ == data@.skip(
            SINGLE_OVERHEAD as int,
        ),
        f matches Some(Frame::Segment { net, header, payload }) ==> data@.len() > SEGMENT_OVERHEAD
            && data@[0] == KIND_SEGMENT && net == net_at(data@) && header == header_at(data@)
            && payload@ == data@.skip(SEGMENT_OVERHEAD as int) && !malformed(header, payload@.len()),
        f is None == !((data@.len() > SINGLE_OVERHEAD && data@[0] == KIND_SINGLE) || (data@.len()
            > SEGMENT_OVERHEAD && data@[0] == KIND_SEGMENT && !malformed(
            header_at(data@),
            (data@.len() - SEGMENT_OVERHEAD) as nat,
        ))),
{
    if data.len() <= SINGLE_OVERHEAD {
        return None;
    }
    let net: u128 = read_number(data, 1, 16);
    if data[0] == KIND_SINGLE {
        let payload = slice(data, SINGLE_OVERHEAD, data.len());
        return Some(Frame::Single { net, payload });
    }
    if data[0] != KIND_SEGMENT || data.len() <= SEGMENT_OVERHEAD {
        return None;
    }
    proof {
        lemma_spans();
        lemma_number_bound(data@.subrange(17, 21));
        lemma_number_bound(data@.subrange(21, 23));
        lemma_number_bound(data@.subrange(23, 25));
        lemma_number_bound(data@.subrange(25, 27));
    }
    let id: u128 = read_number(data, 17, 4);
    let index: u128 = read_number(data, 21, 2);
    let count: u128 = read_number(data, 23, 2);
    let total: u128 = read_number(data, 25, 2);
    let header = SegmentHeader {
        id: id as u32,
        index: index as u16,
        count: count as u16,
        total: total as u16,
    };
    if is_malformed(&header, data.len() - SEGMENT_OVERHEAD) {
        return None;
    }
    let payload = slice(data, SEGMENT_OVERHEAD, data.len());
    Some(Frame::Segment { net, header, payload })
}

/// A segment behind its prefix reads back as the same header and network.
pub proof fn law_segment_round_trip(net: u128, h: SegmentHeader, payload: Seq<u8>)
    ensures
        ({
            let data = segment_prefix(net, h) + payload;
            &&& data.len() == SEGMENT_OVERHEAD + payload.len()
            &&& data[0] == KIND_SEGMENT
            &&& net_at(data) == net
            &&& header_at(data) == h
            &&& data.skip(SEGMENT_OVERHEAD as int) == payload
        }),
{
    lemma_spans();
    lemma_number(net as nat, 16);
    lemma_number(h.id as nat, 4);
    lemma_number(h.index as nat, 2);
    lemma_number(h.count as nat, 2);
    lemma_number(h.total as nat, 2);
    let data = segment_prefix(net, h) + payload;
    assert(data.subrange(1, 17) =~= big_endian(net as nat, 16));
    assert(data.subrange(17, 21) =~= big_endian(h.id as nat, 4));
    assert(data.subrange(21, 23) =~= big_endian(h.index as nat, 2));
    assert(data.subrange(23, 25) =~= big_endian(h.count as nat, 2));
    assert(data.subrange(25, 27) =~= big_endian(h.total as nat, 2));
    assert(data.skip(SEGMENT_OVERHEAD as int) =~= payload);
}

/// A whole packet behind its prefix reads back as the same packet and network.
pub proof fn law_single_round_trip(net: u128, payload: Seq<u8>)
    ensures
        ({
            let data = seq![KIND_SINGLE] + big_endian(net as nat, 16) + payload;
            &&& data.len() == SINGLE_OVERHEAD + payload.len()
            &&& data[0] == KIND_SINGLE
            &&& net_at(data) == net
            &&& data.skip(SINGLE_OVERHEAD as int) == payload
        }),
{
    lemma_spans();
    lemma_number(net as nat, 16);
    let data = seq![KIND_SINGLE] + big_endian(net as nat, 16) + payload;
    assert(data.subrange(1, 17) =~= big_endian(net as nat, 16));
    assert(data.skip(SINGLE_OVERHEAD as int) =~= payload);
}

/// Numbers are written most significant byte first: the last byte is the remainder by 256,
/// and those before it write the quotient.
pub proof fn law_numbers_on_the_wire(v: nat, n: nat)
    requires
        n > 0,
    ensures
        big_endian(v, n).last() as nat == v % 256,
        big_endian(v, n).drop_last() == big_endian(v / 256, (n - 1) as nat),
        big_endian(v, 0).len() == 0,
{
    assert(big_endian(v, n).drop_last() =~= big_endian(v / 256, (n - 1) as nat));
}

} // verus!
