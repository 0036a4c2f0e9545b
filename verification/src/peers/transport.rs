//! The transport of one endpoint: its connection, its measurements and its counters.

use crate::endpoint::EndpointId;
use crate::pool::model::plus;
use crate::pool::slot::bump;
use crate::text::{parse_u64, u64_of};
use vstd::prelude::*;

verus! {

/// Default DRR quantum: one logical MTU-ish chunk (retuned with MPS).
pub const DEFAULT_QUANTUM: usize = 1536;

/// Default effective DATAGRAM payload before the first measurement.
pub const DEFAULT_MPS: usize = 1280;

/// The smallest quantum that a measurement leads to.
pub const MIN_RETUNED_QUANTUM: usize = 512;

/// Ceiling of the transport-full backoff (microseconds), unless it is raised.
pub const DEFAULT_BACKOFF_MAX_US: u64 = 2000;

/// The shortest ceiling of the backoff of a full transport (microseconds).
pub const MIN_BACKOFF_US: u64 = 100;

/// The ceiling of the backoff: the one that is set, where it is a number and not too small.
pub open spec fn backoff_ceiling_of(setting: Option<&str>) -> u64 {
    match setting {
        Some(s) => match u64_of(s@) {
            Some(n) => if n >= MIN_BACKOFF_US {
                n
            } else {
                DEFAULT_BACKOFF_MAX_US
            },
            None => DEFAULT_BACKOFF_MAX_US,
        },
        None => DEFAULT_BACKOFF_MAX_US,
    }
}

pub fn backoff_ceiling(setting: Option<&str>) -> (us: u64)
    ensures
        us == backoff_ceiling_of(setting),
        us >= MIN_BACKOFF_US,
{
    match setting {
        Some(s) => match parse_u64(s) {
            Some(n) => if n >= MIN_BACKOFF_US {
                n
            } else {
                DEFAULT_BACKOFF_MAX_US
            },
            None => DEFAULT_BACKOFF_MAX_US,
        },
        None => DEFAULT_BACKOFF_MAX_US,
    }
}

/// Endpoint-global transport state, shared by all of the endpoint's network
/// memberships. Carries no network identity, no firewall state, no scheduler.
#[derive(Debug, Clone, Copy, PartialEq, Eq)]
pub struct PeerTransportState {
    pub endpoint: EndpointId,
    /// The stable id of the connection.
    pub conn: Option<u64>,
    pub tx_packets: u64,
    pub tx_bytes: u64,
    pub rx_packets: u64,
    pub rx_bytes: u64,
    pub last_activity_ms: u64,
    pub relay: bool,
    /// Effective DATAGRAM payload size (frame bytes), adapted to path MTU.
    pub mps: usize,
    /// Cached RTT millis for adaptive backoff (updated by path watcher).
    pub rtt_ms: u64,
    /// Frame-ID counter shared across memberships (unique per endpoint).
    pub next_frame_id: u32,
    /// Sends since the last MPS refresh (periodic re-measurement).
    pub sends_since_mps_check: u64,
}

pub open spec fn new_transport(endpoint: EndpointId, now_ms: u64, frame_id: u32) -> PeerTransportState {
    PeerTransportState {
        endpoint,
        conn: None,
        tx_packets: 0,
        tx_bytes: 0,
        rx_packets: 0,
        rx_bytes: 0,
        last_activity_ms: now_ms,
        relay: false,
        mps: DEFAULT_MPS,
        rtt_ms: 90,
        next_frame_id: frame_id,
        sends_since_mps_check: 0,
    }
}

#[derive(Debug, Clone, Copy, PartialEq, Eq, Structural)]
pub enum FastSendError {
    /// No live connection: caller must take the slow reconnect path.
    NoConnection,
    /// QUIC DATAGRAM buffer full: scheduler owns the drop/retry decision.
    TransportFull,
    TooLarge,
    Closed,
}

impl FastSendError {
    pub fn as_str(self) -> (s: &'static str)
        ensures
            s@ == (match self {
                FastSendError::NoConnection => "no live connection"@,
                FastSendError::TransportFull => "transport buffer full"@,
                FastSendError::TooLarge => "datagram_too_large"@,
                FastSendError::Closed => "connection closed"@,
            }),
    {
        match self {
            Self::NoConnection => "no live connection",
            Self::TransportFull => "transport buffer full",
            Self::TooLarge => "datagram_too_large",
            Self::Closed => "connection closed",
        }
    }
}

/// What the transport knows of a connection at the moment.
#[derive(Debug, Clone, Copy, PartialEq, Eq, Structural)]
pub struct ConnFacts {
    pub closed: bool,
    /// The largest datagram, where it is known.
    pub max_datagram: Option<usize>,
    /// Free bytes in the datagram buffer.
    pub space: usize,
}

/// What a measurement of a path gives: the largest datagram, and the round-trip time of
/// the selected path where there is one.
#[derive(Debug, Clone, Copy, PartialEq, Eq, Structural)]
pub struct Measured {
    pub mps: usize,
    pub rtt_ms: Option<u64>,
}

/// A frame may be submitted: there is an open connection, the frame fits into a datagram,
/// and the free space fits the entire frame, so that nothing older is displaced.
pub open spec fn send_check(conn: Option<ConnFacts>, len: usize) -> Result<(), FastSendError> {
    match conn {
        None => Err(FastSendError::NoConnection),
        Some(c) => if c.closed {
            Err(FastSendError::NoConnection)
        } else if c.max_datagram is Some && len > c.max_datagram->Some_0 {
            Err(FastSendError::TooLarge)
        } else if c.space < len {
            Err(FastSendError::TransportFull)
        } else {
            Ok(())
        },
    }
}

pub open spec fn touched(t: PeerTransportState, now_ms: u64) -> PeerTransportState {
    PeerTransportState {
        last_activity_ms: if crate::policy::flows::clock_diff(now_ms, t.last_activity_ms) >= 1000 {
            now_ms
        } else {
            t.last_activity_ms
        },
        ..t
    }
}

/// The transport after a measurement of its path; the frame counters stay.
pub open spec fn measured(t: PeerTransportState, m: Measured) -> PeerTransportState {
    PeerTransportState {
        mps: m.mps,
        rtt_ms: match m.rtt_ms {
            Some(r) => r,
            None => t.rtt_ms,
        },
        ..t
    }
}

/// The quantum that fits a datagram size.
pub open spec fn quantum_for(mps: usize) -> usize {
    if mps < MIN_RETUNED_QUANTUM {
        MIN_RETUNED_QUANTUM
    } else {
        mps
    }
}

pub fn retuned_quantum(mps: usize) -> (q: usize)
    ensures
        q == quantum_for(mps),
{
    if mps < MIN_RETUNED_QUANTUM {
        MIN_RETUNED_QUANTUM
    } else {
        mps
    }
}

/// Adaptive transport-full backoff: a quarter of the round trip, between 100 µs and the
/// ceiling (microseconds).
pub open spec fn backoff_us(rtt_ms: u64, max: u64) -> int {
    let raw = rtt_ms * 250;
    if raw < 100 {
        100
    } else if raw > max {
        max as int
    } else {
        raw
    }
}

impl PeerTransportState {
    pub fn new(endpoint: EndpointId, now_ms: u64, frame_id: u32) -> (t: Self)
        ensures
            t == new_transport(endpoint, now_ms, frame_id),
    {
        PeerTransportState {
            endpoint,
            conn: None,
            tx_packets: 0,
            tx_bytes: 0,
            rx_packets: 0,
            rx_bytes: 0,
            last_activity_ms: now_ms,
            relay: false,
            mps: DEFAULT_MPS,
            rtt_ms: 90,
            next_frame_id: frame_id,
            sends_since_mps_check: 0,
        }
    }

    /// Whether a frame of `len` bytes may be submitted on a connection with these facts.
    /// A connection that is closed is forgotten. The frame stays with the caller.
    pub fn try_send_frame(&mut self, facts: Option<ConnFacts>, len: usize) -> (r: Result<
        (),
        FastSendError,
    >)
        ensures
            r == send_check(
                (if old(self).conn is Some {
                    facts
                } else {
                    None
                }),
                len,
            ),
            *final(self) == (PeerTransportState {
                conn: if facts is Some && facts->Some_0.closed {
                    None
                } else {
                    old(self).conn
                },
                ..*old(self)
            }),
    {
        let known = self.conn.is_some();
        match facts {
            None => Err(FastSendError::NoConnection),
            Some(c) => {
                if c.closed {
                    self.conn = None;
                    return Err(FastSendError::NoConnection);
                }
                if !known {
                    return Err(FastSendError::NoConnection);
                }
                if let Some(max) = c.max_datagram {
                    if len > max {
                        return Err(FastSendError::TooLarge);
                    }
                }
                if c.space < len {
                    return Err(FastSendError::TransportFull);
                }
                Ok(())
            },
        }
    }

    /// A frame was submitted.
    pub fn sent(&mut self, len: usize, now_ms: u64)
        ensures
            *final(self) == touched(
                (PeerTransportState {
                    tx_packets: plus(old(self).tx_packets, 1),
                    tx_bytes: plus(old(self).tx_bytes, len as nat),
                    ..*old(self)
                }),
                now_ms,
            ),
    {
        self.tx_packets = bump(self.tx_packets, 1);
        self.tx_bytes = bump(self.tx_bytes, len as u64);
        self.touch(now_ms);
    }

    pub fn touch(&mut self, now_ms: u64)
        ensures
            *final(self) == touched(*old(self), now_ms),
    {
        if now_ms.wrapping_sub(self.last_activity_ms) >= 1000 {
            self.last_activity_ms = now_ms;
        }
    }

    pub fn record_rx(&mut self, n: u64, now_ms: u64)
        ensures
            *final(self) == touched(
                (PeerTransportState {
                    rx_packets: plus(old(self).rx_packets, 1),
                    rx_bytes: plus(old(self).rx_bytes, n as nat),
                    ..*old(self)
                }),
                now_ms,
            ),
    {
        self.rx_packets = bump(self.rx_packets, 1);
        self.rx_bytes = bump(self.rx_bytes, n);
        self.touch(now_ms);
    }

    /// The path was measured.
    pub fn refresh_mps(&mut self, m: Measured)
        ensures
            *final(self) == measured(*old(self), m),
    {
        self.mps = m.mps;
        if let Some(r) = m.rtt_ms {
            self.rtt_ms = r;
        }
    }

    /// Adaptive transport-full backoff (microseconds).
    pub fn backoff_for(&self, max: u64) -> (us: u64)
        requires
            max >= 100,
        ensures
            us == backoff_us(self.rtt_ms, max),
            100 <= us <= max,
    {
        let raw: u64 = if self.rtt_ms > u64::MAX / 250 {
            u64::MAX
        } else {
            self.rtt_ms * 250
        };
        if raw < 100 {
            100
        } else if raw > max {
            max
        } else {
            raw
        }
    }
}

} // verus!
