//! Event classifications and per-connection counters surfaced to the game
//! engine and telemetry.
use vstd::prelude::*;

verus! {

/// Classification of a detected path event.
#[derive(Clone, Eq, PartialEq, Debug, Structural)]
pub enum PathEventKind {
    /// Step jump in one-way delay with no congestion correlation: the
    /// signature of an ISP reroute.
    Reroute,
    /// Ramp-up correlated with inflight/cwnd: ordinary congestion.
    Congestion,
}

/// Direction a degradation was observed in.
#[derive(Clone, Eq, PartialEq, Debug, Structural)]
pub enum PathDirection {
    Forward,
    Reverse,
}

/// Cold connection state: metrics, telemetry, and debugging records.
#[derive(Clone, Debug, Default)]
pub struct ConnectionCold {
    pub total_rx_packets: u64,
    pub total_tx_packets: u64,
    pub total_rx_bytes: u64,
    pub total_tx_bytes: u64,
    pub total_stale_drops: u64,
    pub total_retransmissions: u64,
    pub total_spurious_losses: u64,
    pub total_corrupted_packets: u64,
    pub total_dropped_frames: u64,
    pub total_duplicate_drops: u64,
    /// Control events shed by the bounded event queue (drop-oldest).
    pub total_dropped_events: u64,
    /// Fragments refused by the bounded reassembler (orphan/poison/cap).
    pub total_fragment_drops: u64,
}

impl ConnectionCold {
    /// All counters at zero.
    pub fn new() -> (c: ConnectionCold)
        ensures
            c.total_rx_packets == 0 && c.total_tx_packets == 0 && c.total_rx_bytes == 0 && c.total_tx_bytes == 0,
            c.total_stale_drops == 0 && c.total_retransmissions == 0 && c.total_spurious_losses == 0,
            c.total_corrupted_packets == 0 && c.total_dropped_frames == 0 && c.total_duplicate_drops == 0,
            c.total_dropped_events == 0 && c.total_fragment_drops == 0,
    {
        ConnectionCold {
            total_rx_packets: 0,
            total_tx_packets: 0,
            total_rx_bytes: 0,
            total_tx_bytes: 0,
            total_stale_drops: 0,
            total_retransmissions: 0,
            total_spurious_losses: 0,
            total_corrupted_packets: 0,
            total_dropped_frames: 0,
            total_duplicate_drops: 0,
            total_dropped_events: 0,
            total_fragment_drops: 0,
        }
    }
}

} // verus!
