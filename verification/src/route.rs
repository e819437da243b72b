//! One candidate path's measurements, both directions, one epoch.
use vstd::prelude::*;

verus! {

/// One candidate path's measurements, both directions, one epoch.
///
/// `fwd_*` is the direction A→B as observed at B's receiver, `rev_*` the
/// direction B→A as observed at A's receiver, and `rtt_us` the round trip.
/// Every axis is optional: a missing axis is *unknown*, never *excellent*.
/// The ages say how old each direction's evidence is (`None`: not carried).
#[derive(Clone, Copy, Debug, Default, PartialEq, Eq, Structural)]
pub struct PathStats {
    /// Caller-assigned candidate identifier.
    pub path_id: u32,
    /// Forward one-way delay variance above floor, µs.
    pub fwd_owd_var_us: Option<u32>,
    /// Forward RFC 3550 inter-arrival jitter, µs.
    pub fwd_jitter_us: Option<u32>,
    /// Reverse one-way delay variance above floor, µs.
    pub rev_owd_var_us: Option<u32>,
    /// Reverse RFC 3550 inter-arrival jitter, µs.
    pub rev_jitter_us: Option<u32>,
    /// Smoothed round-trip time, µs.
    pub rtt_us: Option<u32>,
    /// Measurement basis size (received samples behind these aggregates).
    pub sample_count: u32,
    /// Age of the forward-direction evidence, µs.
    pub fwd_age_us: Option<u64>,
    /// Age of the reverse-direction evidence, µs.
    pub rev_age_us: Option<u64>,
}

impl PathStats {
    /// A stats record with every axis and both ages present.
    pub fn full(
        path_id: u32,
        fwd_owd_var_us: u32,
        fwd_jitter_us: u32,
        rev_owd_var_us: u32,
        rev_jitter_us: u32,
        rtt_us: u32,
        sample_count: u32,
        fwd_age_us: u64,
        rev_age_us: u64,
    ) -> (s: PathStats)
        ensures
            s == (PathStats {
                path_id,
                fwd_owd_var_us: Some(fwd_owd_var_us),
                fwd_jitter_us: Some(fwd_jitter_us),
                rev_owd_var_us: Some(rev_owd_var_us),
                rev_jitter_us: Some(rev_jitter_us),
                rtt_us: Some(rtt_us),
                sample_count,
                fwd_age_us: Some(fwd_age_us),
                rev_age_us: Some(rev_age_us),
            }),
    {
        PathStats {
            path_id,
            fwd_owd_var_us: Some(fwd_owd_var_us),
            fwd_jitter_us: Some(fwd_jitter_us),
            rev_owd_var_us: Some(rev_owd_var_us),
            rev_jitter_us: Some(rev_jitter_us),
            rtt_us: Some(rtt_us),
            sample_count,
            fwd_age_us: Some(fwd_age_us),
            rev_age_us: Some(rev_age_us),
        }
    }

    /// The age of the older direction's evidence, when any age was carried.
    pub fn path_age(&self) -> (a: Option<u64>)
        ensures
            a == spec_path_age(*self),
    {
        match (self.fwd_age_us, self.rev_age_us) {
            (Some(f), Some(r)) => Some(if f >= r { f } else { r }),
            (Some(f), None) => Some(f),
            (None, Some(r)) => Some(r),
            (None, None) => None,
        }
    }
}

/// The age of the older direction's evidence.
pub open spec fn spec_path_age(s: PathStats) -> Option<u64> {
    match (s.fwd_age_us, s.rev_age_us) {
        (Some(f), Some(r)) => Some(if f >= r { f } else { r }),
        (Some(f), None) => Some(f),
        (None, Some(r)) => Some(r),
        (None, None) => None,
    }
}

} // verus!
