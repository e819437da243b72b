//! Compact cross-endpoint measurement report (application layer).
//!
//! One endpoint tells the other what its receiver measured, as a single
//! ASCII line `GTPRP1|var|jitter|srtt|samples`, where `-` marks an axis not
//! yet measured. Parsing is strict: a wrong prefix, a wrong field count or a
//! malformed number rejects the whole line.
use vstd::prelude::*;
use vstd::string::*;
use crate::route::PathStats;
use crate::text::{decimal, parse_u32, split_bars, bar_free, push_decimal, chars_of, split_fields, parse_u32_chars, lemma_decimal_props, lemma_parse_decimal_u32, lemma_split_free, lemma_split_concat, lemma_digits_free, free_of};

verus! {

/// The wire group id the exchange uses for reports.
pub const REPORT_GROUP_ID: u16 = 0x5250;

/// One endpoint's measured aggregates for the direction it receives.
#[derive(Clone, Copy, Debug, Default, PartialEq, Eq, Structural)]
pub struct MeasurementReport {
    /// One-way delay variance above floor, µs (`None` before the first sample).
    pub owd_var_us: Option<u32>,
    /// RFC 3550 inter-arrival jitter, µs (`None` before the first sample).
    pub jitter_us: Option<u32>,
    /// The reporter's smoothed RTT, µs.
    pub srtt_us: Option<u32>,
    /// Packets received by the reporter this session (the measurement basis).
    pub samples: u32,
}

/// The report prefix `GTPRP1`.
pub open spec fn report_prefix() -> Seq<char> {
    seq!['G', 'T', 'P', 'R', 'P', '1']
}

/// The rendering of an optional axis: its decimal value, or `-`.
pub open spec fn spec_field(v: Option<u32>) -> Seq<char> {
    match v {
        Some(x) => decimal(x as nat),
        None => seq!['-'],
    }
}

/// The parse of an optional axis: `-` is "not measured", anything else must be
/// a strict `u32`; `None` rejects the field.
pub open spec fn spec_opt_field(s: Seq<char>) -> Option<Option<u32>> {
    if s == seq!['-'] {
        Some(None)
    } else {
        match parse_u32(s) {
            Some(v) => Some(Some(v)),
            None => None,
        }
    }
}

/// The line a report encodes to.
pub open spec fn spec_encode(r: MeasurementReport) -> Seq<char> {
    report_prefix() + seq!['|'] + spec_field(r.owd_var_us) + seq!['|'] + spec_field(r.jitter_us)
        + seq!['|'] + spec_field(r.srtt_us) + seq!['|'] + decimal(r.samples as nat)
}

/// The report a line parses to, if any.
pub open spec fn spec_parse(s: Seq<char>) -> Option<MeasurementReport> {
    if s.len() >= 7 && s.take(6) == report_prefix() && s[6] == '|' {
        let f = split_bars(s.skip(7));
        if f.len() == 4 {
            match (spec_opt_field(f[0]), spec_opt_field(f[1]), spec_opt_field(f[2]), parse_u32(f[3])) {
                (Some(a), Some(b), Some(c), Some(n)) => Some(
                    MeasurementReport { owd_var_us: a, jitter_us: b, srtt_us: c, samples: n },
                ),
                _ => None,
            }
        } else {
            None
        }
    } else {
        None
    }
}

/// The merge of a far-end report with the local reverse-direction stats.
pub open spec fn spec_into_path_stats(r: MeasurementReport, path_id: u32, rev: PathStats) -> PathStats {
    PathStats {
        path_id,
        fwd_owd_var_us: r.owd_var_us,
        fwd_jitter_us: r.jitter_us,
        rev_owd_var_us: rev.rev_owd_var_us,
        rev_jitter_us: rev.rev_jitter_us,
        rtt_us: match rev.rtt_us {
            Some(v) => Some(v),
            None => r.srtt_us,
        },
        sample_count: if r.samples <= (if rev.sample_count >= 1 { rev.sample_count } else { 1 }) {
            r.samples
        } else {
            if rev.sample_count >= 1 { rev.sample_count } else { 1 }
        },
        fwd_age_us: None,
        rev_age_us: rev.rev_age_us,
    }
}

pub(crate) fn push_field(out: &mut String, v: Option<u32>)
    ensures
        final(out)@ == old(out)@ + spec_field(v),
{
    match v {
        Some(x) => push_decimal(out, x as u64),
        None => {
            proof { reveal_strlit("-"); }
            out.append("-");
        },
    }
}

pub(crate) fn opt_field(s: &[char]) -> (r: Option<Option<u32>>)
    ensures
        r == spec_opt_field(s@),
{
    if s.len() == 1 && s[0] == '-' {
        assert(s@ =~= seq!['-']);
        Some(None)
    } else {
        assert(s@ != seq!['-']) by {
            if s@ == seq!['-'] {
                assert(s@.len() == 1 && s@[0] == '-');
            }
        }
        match parse_u32_chars(s) {
            Some(v) => Some(Some(v)),
            None => None,
        }
    }
}

impl MeasurementReport {
    /// Encodes as `GTPRP1|var|jitter|srtt|samples` (`-` = not yet measured).
    pub fn encode(&self) -> (line: String)
        ensures
            line@ == spec_encode(*self),
    {
        let mut out = String::new();
        proof { reveal_strlit("GTPRP1|"); reveal_strlit("|"); }
        out.append("GTPRP1|");
        push_field(&mut out, self.owd_var_us);
        out.append("|");
        push_field(&mut out, self.jitter_us);
        out.append("|");
        push_field(&mut out, self.srtt_us);
        out.append("|");
        push_decimal(&mut out, self.samples as u64);
        assert(out@ =~= spec_encode(*self));
        out
    }

    /// Strict parse: a wrong prefix, wrong arity, or a malformed number yields
    /// `None` — a report that cannot be trusted is not half-accepted.
    pub fn parse(line: &str) -> (r: Option<MeasurementReport>)
        ensures
            r == spec_parse(line@),
    {
        let s = chars_of(line);
        if s.len() < 7 {
            return None;
        }
        if !(s[0] == 'G' && s[1] == 'T' && s[2] == 'P' && s[3] == 'R' && s[4] == 'P' && s[5] == '1'
            && s[6] == '|') {
            proof {
                if s@.take(6) == report_prefix() {
                    assert(s@.take(6)[0] == s@[0] && s@.take(6)[1] == s@[1] && s@.take(6)[2]
                        == s@[2] && s@.take(6)[3] == s@[3] && s@.take(6)[4] == s@[4]
                        && s@.take(6)[5] == s@[5]);
                }
            }
            return None;
        }
        assert(s@.take(6) =~= report_prefix());
        let mut rest: Vec<char> = Vec::new();
        let mut i: usize = 7;
        while i < s.len()
            invariant
                7 <= i <= s.len(),
                rest@ == s@.subrange(7, i as int),
            decreases s.len() - i,
        {
            rest.push(s[i]);
            i = i + 1;
            assert(rest@ =~= s@.subrange(7, i as int));
        }
        assert(rest@ =~= s@.skip(7));
        let f = split_fields(rest.as_slice(), '|');
        if f.len() != 4 {
            return None;
        }
        let a = opt_field(f[0].as_slice());
        let b = opt_field(f[1].as_slice());
        let c = opt_field(f[2].as_slice());
        let n = parse_u32_chars(f[3].as_slice());
        match (a, b, c, n) {
            (Some(a), Some(b), Some(c), Some(n)) => Some(
                MeasurementReport { owd_var_us: a, jitter_us: b, srtt_us: c, samples: n },
            ),
            _ => None,
        }
    }

    /// Merges this report (the far end's observation of the forward
    /// direction) with the local end's own reverse-direction aggregates into
    /// one [`PathStats`]. RTT prefers the local value; the basis is the smaller
    /// of the two per-packet counts (the local count floored at 1).
    pub fn into_path_stats(self, path_id: u32, rev: &PathStats) -> (p: PathStats)
        ensures
            p == spec_into_path_stats(self, path_id, *rev),
    {
        let local_basis = if rev.sample_count >= 1 {
            rev.sample_count
        } else {
            1
        };
        PathStats {
            path_id,
            fwd_owd_var_us: self.owd_var_us,
            fwd_jitter_us: self.jitter_us,
            rev_owd_var_us: rev.rev_owd_var_us,
            rev_jitter_us: rev.rev_jitter_us,
            rtt_us: match rev.rtt_us {
                Some(v) => Some(v),
                None => self.srtt_us,
            },
            sample_count: if self.samples <= local_basis {
                self.samples
            } else {
                local_basis
            },
            fwd_age_us: None,
            rev_age_us: rev.rev_age_us,
        }
    }
}

pub proof fn lemma_field_props(v: Option<u32>)
    ensures
        bar_free(spec_field(v)),
        free_of(spec_field(v), ':'),
        spec_opt_field(spec_field(v)) == Some(v),
{
    match v {
        Some(x) => {
            lemma_decimal_props(x as nat);
            lemma_parse_decimal_u32(x);
            lemma_digits_free(decimal(x as nat), ':');
        },
        None => {
            assert(bar_free(seq!['-']));
            assert(free_of(seq!['-'], ':'));
        },
    }
}

/// Encoding then parsing gives back exactly the report that was encoded.
pub proof fn lemma_report_roundtrip(r: MeasurementReport)
    ensures
        spec_parse(spec_encode(r)) == Some(r),
{
    let f0 = spec_field(r.owd_var_us);
    let f1 = spec_field(r.jitter_us);
    let f2 = spec_field(r.srtt_us);
    let f3 = decimal(r.samples as nat);
    lemma_field_props(r.owd_var_us);
    lemma_field_props(r.jitter_us);
    lemma_field_props(r.srtt_us);
    lemma_decimal_props(r.samples as nat);
    lemma_parse_decimal_u32(r.samples);
    let s = spec_encode(r);
    let tail = f0 + seq!['|'] + f1 + seq!['|'] + f2 + seq!['|'] + f3;
    assert(s =~= report_prefix() + seq!['|'] + tail);
    assert(s.take(6) =~= report_prefix());
    assert(s.skip(7) =~= tail);
    lemma_split_free(f0, '|');
    lemma_split_free(f1, '|');
    lemma_split_free(f2, '|');
    lemma_split_free(f3, '|');
    lemma_split_concat(f0 + seq!['|'] + f1 + seq!['|'] + f2, f3, '|');
    lemma_split_concat(f0 + seq!['|'] + f1, f2, '|');
    lemma_split_concat(f0, f1, '|');
    let fields = split_bars(tail);
    assert(fields =~= seq![f0, f1, f2, f3]);
}

} // verus!
