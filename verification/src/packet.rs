//! Logical packets and the flows that they belong to.

use crate::table::Key;
use vstd::prelude::*;

verus! {

/// The five-tuple that tells one flow from another.
#[derive(Clone, Copy, Debug, PartialEq, Eq, Structural)]
pub struct FlowKey {
    pub src: u32,
    pub dst: u32,
    pub protocol: u8,
    pub sport: u16,
    pub dport: u16,
}

impl Key for FlowKey {
    fn same(&self, other: &Self) -> (b: bool) {
        *self == *other
    }
}

/// One inner packet: the unit that is queued, dropped and sent.
#[derive(Debug)]
pub struct LogicalPacket {
    pub flow: FlowKey,
    pub data: Vec<u8>,
    /// When the packet was queued, in nanoseconds of a monotonic clock.
    pub enqueued_at: u64,
}

impl LogicalPacket {
    pub open spec fn size(self) -> nat {
        self.data@.len()
    }

    /// A packet is no longer than a vector can be.
    pub proof fn lemma_size(self)
        ensures
            self.size() <= usize::MAX,
    {
        assert(self.data.len() == self.data@.len());
    }

    pub fn new(flow: FlowKey, data: Vec<u8>, enqueued_at: u64) -> (p: Self)
        ensures
            p.flow == flow,
            p.data == data,
            p.enqueued_at == enqueued_at,
    {
        LogicalPacket { flow, data, enqueued_at }
    }

    pub fn len(&self) -> (n: usize)
        ensures
            n == self.size(),
    {
        self.data.len()
    }
}

/// The sum of the sizes of a run of packets.
pub open spec fn total_size(s: Seq<LogicalPacket>) -> nat
    decreases s.len(),
{
    if s.len() == 0 {
        0
    } else {
        total_size(s.drop_last()) + s.last().size()
    }
}

pub proof fn lemma_total_push(s: Seq<LogicalPacket>, p: LogicalPacket)
    ensures
        total_size(s.push(p)) == total_size(s) + p.size(),
{
    assert(s.push(p).drop_last() =~= s);
}

pub proof fn lemma_total_split(a: Seq<LogicalPacket>, b: Seq<LogicalPacket>)
    ensures
        total_size(a + b) == total_size(a) + total_size(b),
    decreases b.len(),
{
    if b.len() == 0 {
        assert(a + b =~= a);
    } else {
        lemma_total_split(a, b.drop_last());
        assert((a + b).drop_last() =~= a + b.drop_last());
    }
}

pub proof fn lemma_total_first(s: Seq<LogicalPacket>)
    requires
        s.len() > 0,
    ensures
        total_size(s) == s[0].size() + total_size(s.drop_first()),
{
    lemma_total_split(seq![s[0]], s.drop_first());
    assert(seq![s[0]] + s.drop_first() =~= s);
    assert(seq![s[0]].drop_last() =~= Seq::<LogicalPacket>::empty());
    assert(total_size(seq![s[0]]) == total_size(seq![s[0]].drop_last()) + s[0].size());
}

} // verus!
