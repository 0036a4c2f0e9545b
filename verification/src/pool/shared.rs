//! What the pools of one node share: policy, counters and traffic.

use super::model::{plus, PoolMetrics, DEFAULT_IDLE_SECS};
use super::records::{
    lists, no_tallies, no_tally, tallies_get, tallies_keys, tallies_new, tallies_of, tallies_put,
    PeerTally,
};
use super::slot::{bump, zero_metrics};
use crate::endpoint::EndpointId;
use crate::names::NameTable;
use crate::policy::rules::{holds_text, texts};
use crate::text::{chars_of, lowered, string_of, to_lower};
use vstd::prelude::*;

verus! {

#[derive(Debug, Clone, Copy, PartialEq, Eq, Structural)]
pub struct OnDemandStats {
    pub reconnect_attempts: u64,
    pub reconnect_success: u64,
    pub reconnect_fail: u64,
    pub packets_buffered: u64,
    pub packets_dropped_timeout: u64,
    pub packets_dropped_blocked: u64,
    pub dials_suppressed: u64,
    pub reconnect_latency_avg_us: u64,
    pub reconnect_latency_max_us: u64,
}

pub open spec fn stats_of(m: PoolMetrics) -> OnDemandStats {
    OnDemandStats {
        reconnect_attempts: m.reconnect_attempts,
        reconnect_success: m.reconnect_success,
        reconnect_fail: m.reconnect_fail,
        packets_buffered: m.packets_buffered,
        packets_dropped_timeout: m.packets_dropped_timeout,
        packets_dropped_blocked: m.packets_dropped_blocked,
        dials_suppressed: m.dials_suppressed,
        reconnect_latency_avg_us: if m.reconnect_success == 0 {
            0
        } else {
            m.reconnect_latency_sum_us / m.reconnect_success
        },
        reconnect_latency_max_us: m.reconnect_latency_max_us,
    }
}

/// A relay address without the slashes at its end.
pub open spec fn normalized(url: Seq<char>) -> Seq<char>
    decreases url.len(),
{
    if url.len() > 0 && url.last() == '/' {
        normalized(url.drop_last())
    } else {
        url
    }
}

pub fn normalize_relay_url(url: &str) -> (r: String)
    ensures
        r@ == normalized(url@),
{
    let mut v = chars_of(url);
    while v.len() > 0 && v[v.len() - 1] == '/'
        invariant
            normalized(v@) == normalized(url@),
        decreases v@.len(),
    {
        let ghost was = v@;
        v.pop();
        assert(v@ =~= was.drop_last());
    }
    string_of(v.as_slice())
}

/// A dial succeeded after `us` microseconds.
pub open spec fn with_latency(m: PoolMetrics, us: u64) -> PoolMetrics {
    PoolMetrics {
        reconnect_success: plus(m.reconnect_success, 1),
        reconnect_latency_sum_us: plus(m.reconnect_latency_sum_us, us as nat),
        reconnect_latency_max_us: if us > m.reconnect_latency_max_us {
            us
        } else {
            m.reconnect_latency_max_us
        },
        ..m
    }
}

impl PoolMetrics {
    /// A dial begins.
    pub fn dial_begins(&mut self)
        ensures
            *final(self) == (PoolMetrics {
                reconnect_attempts: plus(old(self).reconnect_attempts, 1),
                ..*old(self)
            }),
    {
        self.reconnect_attempts = bump(self.reconnect_attempts, 1);
    }

    /// A dial opened a connection, after `us` microseconds.
    pub fn dial_succeeds(&mut self, us: u64)
        ensures
            *final(self) == with_latency(*old(self), us),
    {
        self.reconnect_success = bump(self.reconnect_success, 1);
        self.reconnect_latency_sum_us = bump(self.reconnect_latency_sum_us, us);
        if us > self.reconnect_latency_max_us {
            self.reconnect_latency_max_us = us;
        }
    }
}

pub struct Shared {
    pub keep_alive: bool,
    /// Nanoseconds.
    pub idle_timeout: u64,
    pub keep_alive_hosts: NameTable<bool>,
    pub metrics: PoolMetrics,
    pub tallies: dashmap::DashMap<(u128, u128), PeerTally>,
    /// Billable relay addresses, normalized.
    pub cloud_relay_urls: Vec<String>,
    /// Bytes sent over billable relays.
    pub cloud_relay_bytes: u64,
}

pub open spec fn tally_of(m: Map<EndpointId, PeerTally>, peer: EndpointId) -> PeerTally {
    if m.dom().contains(peer) {
        m[peer]
    } else {
        no_tally()
    }
}

/// The sum of a counter over some peers; it wraps around.
pub open spec fn sum_in(m: Map<EndpointId, PeerTally>, keys: Seq<EndpointId>) -> u64
    decreases keys.len(),
{
    if keys.len() == 0 {
        0
    } else {
        plus(sum_in(m, keys.drop_last()), m[keys.last()].bytes_in as nat)
    }
}

pub open spec fn sum_out(m: Map<EndpointId, PeerTally>, keys: Seq<EndpointId>) -> u64
    decreases keys.len(),
{
    if keys.len() == 0 {
        0
    } else {
        plus(sum_out(m, keys.drop_last()), m[keys.last()].bytes_out as nat)
    }
}

impl Shared {
    pub open spec fn wf(&self) -> bool {
        self.keep_alive_hosts.wf()
    }

    #[verifier::inline]
    pub open spec fn of(&self, peer: EndpointId) -> PeerTally {
        tally_of(tallies_of(self.tallies), peer)
    }

    pub fn new() -> (s: Self)
        ensures
            s.wf(),
            s.keep_alive,
            s.idle_timeout == DEFAULT_IDLE_SECS * 1_000_000_000,
            s.keep_alive_hosts@ == Map::<Seq<char>, bool>::empty(),
            s.metrics == zero_metrics(),
            tallies_of(s.tallies) == no_tallies(),
            s.cloud_relay_urls@.len() == 0,
            s.cloud_relay_bytes == 0,
    {
        Shared {
            keep_alive: true,
            idle_timeout: DEFAULT_IDLE_SECS * 1_000_000_000,
            keep_alive_hosts: NameTable::new(),
            metrics: PoolMetrics::default(),
            tallies: tallies_new(),
            cloud_relay_urls: Vec::new(),
            cloud_relay_bytes: 0,
        }
    }

    fn tally(&self, peer: EndpointId) -> (t: PeerTally)
        ensures
            t == self.of(peer),
    {
        match tallies_get(&self.tallies, peer) {
            Some(t) => t,
            None => PeerTally {
                bytes_in: 0,
                bytes_out: 0,
                keep_alive: false,
                cloud_relay: false,
            },
        }
    }

    pub fn set_keep_alive(&mut self, enabled: bool)
        ensures
            *final(self) == (Shared { keep_alive: enabled, ..*old(self) }),
    {
        self.keep_alive = enabled;
    }

    pub fn keep_alive(&self) -> (b: bool)
        ensures
            b == self.keep_alive,
    {
        self.keep_alive
    }

    pub fn keep_alive_global(&self) -> (b: bool)
        ensures
            b == self.keep_alive,
    {
        self.keep_alive
    }

    pub fn set_idle_timeout(&mut self, nanos: u64)
        ensures
            *final(self) == (Shared { idle_timeout: nanos, ..*old(self) }),
    {
        self.idle_timeout = nanos;
    }

    pub fn add_keep_alive_host(&mut self, hostname: &str)
        requires
            old(self).wf(),
        ensures
            final(self).wf(),
            final(self).keep_alive_hosts@ == old(self).keep_alive_hosts@.insert(
                lowered(hostname@),
                true,
            ),
            (Shared { keep_alive_hosts: old(self).keep_alive_hosts, ..*final(self) }) == *old(self),
    {
        self.keep_alive_hosts.insert(to_lower(hostname), true);
    }

    pub fn remove_keep_alive_host(&mut self, hostname: &str)
        requires
            old(self).wf(),
        ensures
            final(self).wf(),
            final(self).keep_alive_hosts@ == old(self).keep_alive_hosts@.remove(lowered(hostname@)),
            (Shared { keep_alive_hosts: old(self).keep_alive_hosts, ..*final(self) }) == *old(self),
    {
        let host = to_lower(hostname);
        self.keep_alive_hosts.remove(host.as_str());
    }

    /// Whether a peer's connection is kept alive, by the pool's policy or by its own.
    pub fn keeps_alive(&self, peer: EndpointId) -> (b: bool)
        ensures
            b == (self.keep_alive || self.of(peer).keep_alive),
    {
        self.keep_alive || self.tally(peer).keep_alive
    }

    /// Sets the tally of one peer.
    fn put(&mut self, peer: EndpointId, t: PeerTally)
        requires
            old(self).wf(),
        ensures
            final(self).wf(),
            tallies_of(final(self).tallies) == tallies_of(old(self).tallies).insert(peer, t),
            (Shared { tallies: old(self).tallies, ..*final(self) }) == *old(self),
    {
        tallies_put(&mut self.tallies, peer, t);
    }

    pub fn keep_peer_alive(&mut self, peer: EndpointId, enabled: bool)
        requires
            old(self).wf(),
        ensures
            final(self).wf(),
            tallies_of(final(self).tallies) == tallies_of(old(self).tallies).insert(
                peer,
                (PeerTally { keep_alive: enabled, ..old(self).of(peer) }),
            ),
            (Shared { tallies: old(self).tallies, ..*final(self) }) == *old(self),
    {
        let t = self.tally(peer);
        self.put(peer, PeerTally { keep_alive: enabled, ..t });
    }

    pub fn on_demand_stats(&self) -> (s: OnDemandStats)
        ensures
            s == stats_of(self.metrics),
    {
        let m = &self.metrics;
        let avg: u64 = if m.reconnect_success == 0 {
            0
        } else {
            m.reconnect_latency_sum_us / m.reconnect_success
        };
        OnDemandStats {
            reconnect_attempts: m.reconnect_attempts,
            reconnect_success: m.reconnect_success,
            reconnect_fail: m.reconnect_fail,
            packets_buffered: m.packets_buffered,
            packets_dropped_timeout: m.packets_dropped_timeout,
            packets_dropped_blocked: m.packets_dropped_blocked,
            dials_suppressed: m.dials_suppressed,
            reconnect_latency_avg_us: avg,
            reconnect_latency_max_us: m.reconnect_latency_max_us,
        }
    }

    /// Bytes went out to a peer; those over a billable relay are metered.
    pub fn record_bytes_out(&mut self, peer: EndpointId, n: u64)
        requires
            old(self).wf(),
        ensures
            final(self).wf(),
            tallies_of(final(self).tallies) == tallies_of(old(self).tallies).insert(
                peer,
                (PeerTally {
                    bytes_out: plus(old(self).of(peer).bytes_out, n as nat),
                    ..old(self).of(peer)
                }),
            ),
            final(self).cloud_relay_bytes == (if old(self).of(peer).cloud_relay {
                plus(old(self).cloud_relay_bytes, n as nat)
            } else {
                old(self).cloud_relay_bytes
            }),
            (Shared {
                tallies: old(self).tallies,
                cloud_relay_bytes: old(self).cloud_relay_bytes,
                ..*final(self)
            }) == *old(self),
    {
        let t = self.tally(peer);
        self.put(peer, PeerTally { bytes_out: bump(t.bytes_out, n), ..t });
        if t.cloud_relay {
            self.cloud_relay_bytes = bump(self.cloud_relay_bytes, n);
        }
    }

    /// Bytes came in from a peer.
    pub fn record_bytes_in(&mut self, peer: EndpointId, n: u64)
        requires
            old(self).wf(),
        ensures
            final(self).wf(),
            tallies_of(final(self).tallies) == tallies_of(old(self).tallies).insert(
                peer,
                (PeerTally {
                    bytes_in: plus(old(self).of(peer).bytes_in, n as nat),
                    ..old(self).of(peer)
                }),
            ),
            (Shared { tallies: old(self).tallies, ..*final(self) }) == *old(self),
    {
        let t = self.tally(peer);
        self.put(peer, PeerTally { bytes_in: bump(t.bytes_in, n), ..t });
    }

    /// Bytes in and out of a peer.
    pub fn peer_bytes(&self, peer: EndpointId) -> (r: (u64, u64))
        ensures
            r == (self.of(peer).bytes_in, self.of(peer).bytes_out),
    {
        let t = self.tally(peer);
        (t.bytes_in, t.bytes_out)
    }

    /// Bytes out and in of all peers together.
    pub fn total_bytes(&self) -> (r: (u64, u64))
        ensures
            exists|keys: Seq<EndpointId>| #[trigger]
                lists(keys, tallies_of(self.tallies)) && r == (
                    sum_out(tallies_of(self.tallies), keys),
                    sum_in(tallies_of(self.tallies), keys),
                ),
    {
        let keys = tallies_keys(&self.tallies);
        let ghost m = tallies_of(self.tallies);
        let mut inn: u64 = 0;
        let mut out: u64 = 0;
        let mut i: usize = 0;
        while i < keys.len()
            invariant
                m == tallies_of(self.tallies),
                lists(keys@, m),
                i <= keys@.len(),
                inn == sum_in(m, keys@.take(i as int)),
                out == sum_out(m, keys@.take(i as int)),
            decreases keys.len() - i,
        {
            proof {
                assert(keys@.take(i + 1).drop_last() =~= keys@.take(i as int));
                assert(keys@.contains(keys@[i as int]));
                assert(m.dom().contains(keys@[i as int]));
            }
            let t = self.tally(keys[i]);
            inn = bump(inn, t.bytes_in);
            out = bump(out, t.bytes_out);
            i += 1;
        }
        assert(keys@.take(i as int) =~= keys@);
        (out, inn)
    }

    /// Replace the set of billable relay addresses. Which peers use one is found out anew.
    pub fn set_cloud_relay_urls(&mut self, urls: &[String])
        requires
            old(self).wf(),
        ensures
            final(self).wf(),
            final(self).cloud_relay_urls@.len() == urls@.len(),
            forall|i: int|
                0 <= i < urls@.len() ==> (#[trigger] final(self).cloud_relay_urls@[i])@
                    == normalized(urls@[i]@),
            forall|peer: EndpointId| #[trigger]
                final(self).of(peer) == (PeerTally { cloud_relay: false, ..old(self).of(peer) }),
            (Shared {
                tallies: old(self).tallies,
                cloud_relay_urls: old(self).cloud_relay_urls,
                ..*final(self)
            }) == *old(self),
    {
        let mut list: Vec<String> = Vec::new();
        let mut i: usize = 0;
        while i < urls.len()
            invariant
                i <= urls@.len(),
                list@.len() == i,
                forall|j: int| 0 <= j < i ==> (#[trigger] list@[j])@ == normalized(urls@[j]@),
            decreases urls.len() - i,
        {
            list.push(normalize_relay_url(urls[i].as_str()));
            i += 1;
        }
        let keys = tallies_keys(&self.tallies);
        let ghost m = tallies_of(self.tallies);
        let mut k: usize = 0;
        while k < keys.len()
            invariant
                self.wf(),
                lists(keys@, m),
                k <= keys@.len(),
                m == tallies_of(old(self).tallies),
                (Shared { tallies: old(self).tallies, ..*self }) == *old(self),
                forall|p: EndpointId| #[trigger]
                    self.of(p) == (if keys@.take(k as int).contains(p) {
                        PeerTally { cloud_relay: false, ..tally_of(m, p) }
                    } else {
                        tally_of(m, p)
                    }),
            decreases keys.len() - k,
        {
            let p = keys[k];
            let ghost done = keys@.take(k as int);
            let ghost before = tallies_of(self.tallies);
            proof {
                assert(!done.contains(p)) by {
                    if done.contains(p) {
                        let j = choose|j: int| 0 <= j < done.len() && done[j] == p;
                        assert(keys@[j] == keys@[k as int]);
                    }
                }
            }
            let t = self.tally(p);
            assert(t == tally_of(m, p));
            self.put(p, PeerTally { cloud_relay: false, ..t });
            proof {
                let now_done = keys@.take(k + 1);
                assert(now_done =~= done.push(p));
                assert forall|q: EndpointId| #[trigger]
                    self.of(q) == (if now_done.contains(q) {
                        PeerTally { cloud_relay: false, ..tally_of(m, q) }
                    } else {
                        tally_of(m, q)
                    }) by {
                    assert(tally_of(before, q) == (if done.contains(q) {
                        PeerTally { cloud_relay: false, ..tally_of(m, q) }
                    } else {
                        tally_of(m, q)
                    }));
                    if q == p {
                        assert(now_done[k as int] == p);
                    } else if now_done.contains(q) {
                        let j = choose|j: int| 0 <= j < now_done.len() && now_done[j] == q;
                        assert(done[j] == q);
                    } else if done.contains(q) {
                        let j = choose|j: int| 0 <= j < done.len() && done[j] == q;
                        assert(now_done[j] == q);
                    }
                }
            }
            k += 1;
        }
        proof {
            assert(keys@.take(k as int) =~= keys@);
            assert forall|peer: EndpointId| #[trigger]
                self.of(peer) == (PeerTally { cloud_relay: false, ..tally_of(m, peer) }) by {
                if !m.dom().contains(peer) {
                    assert(tally_of(m, peer) == no_tally());
                }
            }
        }
        self.cloud_relay_urls = list;
    }

    /// The path of a peer's connection changed: `relay` is its relay, where it uses one.
    pub fn note_path(&mut self, peer: EndpointId, relay: Option<&str>)
        requires
            old(self).wf(),
        ensures
            final(self).wf(),
            tallies_of(final(self).tallies) == tallies_of(old(self).tallies).insert(
                peer,
                (PeerTally {
                    cloud_relay: match relay {
                        Some(u) => texts(old(self).cloud_relay_urls@).contains(normalized(u@)),
                        None => false,
                    },
                    ..old(self).of(peer)
                }),
            ),
            (Shared { tallies: old(self).tallies, ..*final(self) }) == *old(self),
    {
        let metered = match relay {
            Some(u) => {
                let n = normalize_relay_url(u);
                holds_text(self.cloud_relay_urls.as_slice(), n.as_str())
            },
            None => false,
        };
        let t = self.tally(peer);
        self.put(peer, PeerTally { cloud_relay: metered, ..t });
    }
}

} // verus!
