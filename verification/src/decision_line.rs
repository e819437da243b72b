//! The decision-log line format: `GTPDL1|id|conn|class|window|prev|sel|runner|reason|cand…`
//! where `conn` is upper-case hexadecimal, `-` marks an absent value, and
//! each candidate is `path:score:conf:fresh:eff:age`.
//!
//! The real-valued candidate fields (score, confidence, freshness,
//! effective score) are carried here as their text; the integer fields and
//! the framing are parsed exactly. Parsing is strict: a wrong prefix, a
//! missing header field, a candidate without exactly six fields or a
//! malformed integer rejects the whole line.
use vstd::prelude::*;
use vstd::string::*;
use crate::decision_log::{PolicyClass, class_code, class_from_code, lemma_class_code_roundtrip};
use crate::hex::{upper_hex, parse_hex_u64, parse_hex_u64_chars, push_upper_hex, lemma_upper_hex_props, lemma_parse_upper_hex};
use crate::report::{spec_field, spec_opt_field, push_field, opt_field, lemma_field_props};
use crate::select::{SelectionReason, reason_code, reason_from_code, lemma_reason_code_roundtrip};
use crate::text::{
    decimal, parse_u32, parse_u64, split_on, split_bars, free_of, join_on, chars_of, split_fields,
    parse_u32_chars, parse_u64_chars, push_decimal, push_chars, copy_chars, lemma_decimal_props,
    lemma_parse_decimal_u32, lemma_parse_decimal_u64, lemma_split_join, lemma_join_free,
    lemma_join_push, lemma_digits_free,
};

verus! {

/// The decision-log prefix `GTPDL1`.
pub open spec fn decision_prefix() -> Seq<char> {
    seq!['G', 'T', 'P', 'D', 'L', '1']
}

pub open spec fn dash() -> Seq<char> {
    seq!['-']
}

/// The integer part of a decision record.
#[derive(Clone, Copy, Debug, PartialEq, Eq, Structural)]
pub struct DecisionHeader {
    pub decision_id: u64,
    pub connection_id: u64,
    pub policy_class: PolicyClass,
    pub measurement_window_us: Option<u64>,
    pub previous_path: Option<u32>,
    pub selected_path: Option<u32>,
    pub runner_up: Option<u32>,
    pub reason: SelectionReason,
}

/// One candidate entry as plain values, its real-valued fields as text.
pub struct CandidateView {
    pub path_id: u32,
    pub score: Option<Seq<char>>,
    pub confidence: Seq<char>,
    pub freshness: Seq<char>,
    pub effective: Option<Seq<char>>,
    pub age_us: Option<u64>,
}

/// One candidate entry, its real-valued fields as text (`None`: `-`).
#[derive(Clone, Debug, PartialEq)]
pub struct CandidateFields {
    pub path_id: u32,
    pub score: Option<Vec<char>>,
    pub confidence: Vec<char>,
    pub freshness: Vec<char>,
    pub effective: Option<Vec<char>>,
    pub age_us: Option<u64>,
}

pub open spec fn opt_chars(o: Option<Vec<char>>) -> Option<Seq<char>> {
    match o {
        Some(v) => Some(v@),
        None => None,
    }
}

impl View for CandidateFields {
    type V = CandidateView;

    open spec fn view(&self) -> CandidateView {
        CandidateView {
            path_id: self.path_id,
            score: opt_chars(self.score),
            confidence: self.confidence@,
            freshness: self.freshness@,
            effective: opt_chars(self.effective),
            age_us: self.age_us,
        }
    }
}

pub open spec fn candidate_views(cs: Seq<CandidateFields>) -> Seq<CandidateView> {
    cs.map_values(|c: CandidateFields| c@)
}

/// `-` is "absent"; anything else must be a strict `u64`.
pub open spec fn spec_opt_u64(s: Seq<char>) -> Option<Option<u64>> {
    if s == dash() {
        Some(None)
    } else {
        match parse_u64(s) {
            Some(v) => Some(Some(v)),
            None => None,
        }
    }
}

/// `-` is "absent"; anything else is the text itself.
pub open spec fn spec_opt_text(s: Seq<char>) -> Option<Seq<char>> {
    if s == dash() {
        None
    } else {
        Some(s)
    }
}

pub open spec fn opt_u64_text(v: Option<u64>) -> Seq<char> {
    match v {
        Some(x) => decimal(x as nat),
        None => dash(),
    }
}

pub open spec fn opt_text(v: Option<Seq<char>>) -> Seq<char> {
    match v {
        Some(t) => t,
        None => dash(),
    }
}

/// The candidate an entry parses to, if any.
pub open spec fn spec_parse_candidate(s: Seq<char>) -> Option<CandidateView> {
    let f = split_on(s, ':');
    if f.len() == 6 {
        match (parse_u32(f[0]), spec_opt_u64(f[5])) {
            (Some(p), Some(a)) => Some(
                CandidateView {
                    path_id: p,
                    score: spec_opt_text(f[1]),
                    confidence: f[2],
                    freshness: f[3],
                    effective: spec_opt_text(f[4]),
                    age_us: a,
                },
            ),
            _ => None,
        }
    } else {
        None
    }
}

/// The header the first eight fields parse to, if any.
pub open spec fn spec_parse_header(f: Seq<Seq<char>>) -> Option<DecisionHeader> {
    match (
        parse_u64(f[0]),
        parse_hex_u64(f[1]),
        class_from_code(f[2]),
        spec_opt_u64(f[3]),
        spec_opt_field(f[4]),
        spec_opt_field(f[5]),
        spec_opt_field(f[6]),
        reason_from_code(f[7]),
    ) {
        (Some(id), Some(conn), Some(class), Some(w), Some(p), Some(s), Some(r), Some(reason)) => Some(
            DecisionHeader {
                decision_id: id,
                connection_id: conn,
                policy_class: class,
                measurement_window_us: w,
                previous_path: p,
                selected_path: s,
                runner_up: r,
                reason,
            },
        ),
        _ => None,
    }
}

/// Whether every field after the header is a well-formed candidate.
pub open spec fn candidates_parse(parts: Seq<Seq<char>>) -> bool {
    forall|i: int| 8 <= i < parts.len() ==> (#[trigger] spec_parse_candidate(parts[i])) is Some
}

/// The record a line parses to, if any.
pub open spec fn spec_parse_decision(s: Seq<char>) -> Option<(DecisionHeader, Seq<CandidateView>)> {
    if s.len() >= 7 && s.take(6) == decision_prefix() && s[6] == '|' {
        let parts = split_bars(s.skip(7));
        if parts.len() >= 8 && spec_parse_header(parts) is Some && candidates_parse(parts) {
            Some(
                (
                    spec_parse_header(parts).unwrap(),
                    Seq::new(
                        (parts.len() - 8) as nat,
                        |i: int| spec_parse_candidate(parts[i + 8]).unwrap(),
                    ),
                ),
            )
        } else {
            None
        }
    } else {
        None
    }
}

/// The header's eight fields, rendered.
pub open spec fn header_fields(h: DecisionHeader) -> Seq<Seq<char>> {
    seq![
        decimal(h.decision_id as nat),
        upper_hex(h.connection_id as nat),
        class_code(h.policy_class),
        opt_u64_text(h.measurement_window_us),
        spec_field(h.previous_path),
        spec_field(h.selected_path),
        spec_field(h.runner_up),
        reason_code(h.reason),
    ]
}

/// A candidate's six fields, rendered.
pub open spec fn candidate_fields(c: CandidateView) -> Seq<Seq<char>> {
    seq![
        decimal(c.path_id as nat),
        opt_text(c.score),
        c.confidence,
        c.freshness,
        opt_text(c.effective),
        opt_u64_text(c.age_us),
    ]
}

pub open spec fn candidate_text(c: CandidateView) -> Seq<char> {
    join_on(candidate_fields(c), ':')
}

pub open spec fn decision_fields(h: DecisionHeader, cs: Seq<CandidateView>) -> Seq<Seq<char>> {
    header_fields(h) + cs.map_values(|c: CandidateView| candidate_text(c))
}

/// The line a record encodes to.
pub open spec fn spec_encode_decision(h: DecisionHeader, cs: Seq<CandidateView>) -> Seq<char> {
    decision_prefix() + seq!['|'] + join_on(decision_fields(h, cs), '|')
}

/// A text field that neither separator can split.
pub open spec fn clean_text(t: Seq<char>) -> bool {
    free_of(t, '|') && free_of(t, ':')
}

/// A candidate whose texts survive the line format: free of both
/// separators, and an optional text never the `-` that marks absence.
pub open spec fn clean_candidate(c: CandidateView) -> bool {
    &&& clean_text(c.confidence)
    &&& clean_text(c.freshness)
    &&& match c.score {
        Some(t) => clean_text(t) && t != dash(),
        None => true,
    }
    &&& match c.effective {
        Some(t) => clean_text(t) && t != dash(),
        None => true,
    }
}

proof fn lemma_dash_clean()
    ensures
        clean_text(dash()),
{
}

proof fn lemma_opt_u64_props(v: Option<u64>)
    ensures
        clean_text(opt_u64_text(v)),
        spec_opt_u64(opt_u64_text(v)) == Some(v),
{
    match v {
        Some(x) => {
            lemma_decimal_props(x as nat);
            lemma_parse_decimal_u64(x);
            lemma_digits_free(decimal(x as nat), ':');
        },
        None => {},
    }
}

proof fn lemma_codes_clean(c: PolicyClass, r: SelectionReason)
    ensures
        free_of(class_code(c), '|'),
        free_of(reason_code(r), '|'),
{
    reveal_strlit("SHADOW");
    reveal_strlit("FAILOVER");
    reveal_strlit("DEGRADATION");
    reveal_strlit("OPTIMIZATION");
    reveal_strlit("NO_CANDIDATES");
    reveal_strlit("INSUFFICIENT_DATA");
    reveal_strlit("CONFIDENCE_FLOOR_HOLD");
    reveal_strlit("STALE_EVIDENCE_HOLD");
    reveal_strlit("SINGLE_CANDIDATE");
    reveal_strlit("CLEAR_WINNER");
    reveal_strlit("TIE_BREAK_LOWER_ID");
}

proof fn lemma_candidate_roundtrip(c: CandidateView)
    requires
        clean_candidate(c),
    ensures
        free_of(candidate_text(c), '|'),
        spec_parse_candidate(candidate_text(c)) == Some(c),
{
    let f = candidate_fields(c);
    lemma_decimal_props(c.path_id as nat);
    lemma_parse_decimal_u32(c.path_id);
    lemma_digits_free(decimal(c.path_id as nat), ':');
    lemma_opt_u64_props(c.age_us);
    lemma_dash_clean();
    assert forall|i: int| 0 <= i < f.len() implies free_of(#[trigger] f[i], ':') && free_of(f[i], '|') by {
    }
    lemma_split_join(f, ':');
    lemma_join_free(f, ':', '|');
}

/// Encoding a record whose candidate texts are clean, then parsing the line,
/// gives back exactly the record.
pub proof fn lemma_decision_line_roundtrip(h: DecisionHeader, cs: Seq<CandidateView>)
    requires
        forall|i: int| 0 <= i < cs.len() ==> clean_candidate(#[trigger] cs[i]),
    ensures
        spec_parse_decision(spec_encode_decision(h, cs)) == Some((h, cs)),
{
    let fs = decision_fields(h, cs);
    let hf = header_fields(h);
    lemma_decimal_props(h.decision_id as nat);
    lemma_parse_decimal_u64(h.decision_id);
    lemma_upper_hex_props(h.connection_id as nat);
    lemma_parse_upper_hex(h.connection_id);
    lemma_class_code_roundtrip(h.policy_class);
    lemma_reason_code_roundtrip(h.reason);
    lemma_codes_clean(h.policy_class, h.reason);
    lemma_opt_u64_props(h.measurement_window_us);
    lemma_field_props(h.previous_path);
    lemma_field_props(h.selected_path);
    lemma_field_props(h.runner_up);
    assert forall|i: int| 0 <= i < fs.len() implies free_of(#[trigger] fs[i], '|') by {
        if i >= 8 {
            lemma_candidate_roundtrip(cs[i - 8]);
        }
    }
    lemma_split_join(fs, '|');
    let s = spec_encode_decision(h, cs);
    assert(s.take(6) =~= decision_prefix());
    assert(s.skip(7) =~= join_on(fs, '|'));
    let parts = split_bars(s.skip(7));
    assert(parts == fs);
    assert(spec_parse_header(parts) == Some(h));
    assert forall|i: int| 8 <= i < parts.len() implies (#[trigger] spec_parse_candidate(parts[i])) is Some by {
        lemma_candidate_roundtrip(cs[i - 8]);
    }
    let got = Seq::new((parts.len() - 8) as nat, |i: int| spec_parse_candidate(parts[i + 8]).unwrap());
    assert forall|i: int| 0 <= i < cs.len() implies got[i] == cs[i] by {
        lemma_candidate_roundtrip(cs[i]);
    }
    assert(got =~= cs);
}

fn opt_u64_field(s: &[char]) -> (r: Option<Option<u64>>)
    ensures
        r == spec_opt_u64(s@),
{
    if s.len() == 1 && s[0] == '-' {
        assert(s@ =~= dash());
        Some(None)
    } else {
        assert(s@ != dash()) by {
            if s@ == dash() {
                assert(s@.len() == 1 && s@[0] == '-');
            }
        }
        match parse_u64_chars(s) {
            Some(v) => Some(Some(v)),
            None => None,
        }
    }
}

fn opt_text_field(s: &[char]) -> (r: Option<Vec<char>>)
    ensures
        opt_chars(r) == spec_opt_text(s@),
{
    if s.len() == 1 && s[0] == '-' {
        assert(s@ =~= dash());
        None
    } else {
        assert(s@ != dash()) by {
            if s@ == dash() {
                assert(s@.len() == 1 && s@[0] == '-');
            }
        }
        Some(copy_chars(s))
    }
}

/// Parses one `path:score:conf:fresh:eff:age` entry.
pub fn parse_candidate(s: &[char]) -> (r: Option<CandidateFields>)
    ensures
        match r {
            Some(c) => spec_parse_candidate(s@) == Some(c@),
            None => spec_parse_candidate(s@) is None,
        },
{
    let f = split_fields(s, ':');
    if f.len() != 6 {
        return None;
    }
    let p = parse_u32_chars(f[0].as_slice());
    let a = opt_u64_field(f[5].as_slice());
    match (p, a) {
        (Some(path_id), Some(age_us)) => {
            let c = CandidateFields {
                path_id,
                score: opt_text_field(f[1].as_slice()),
                confidence: copy_chars(f[2].as_slice()),
                freshness: copy_chars(f[3].as_slice()),
                effective: opt_text_field(f[4].as_slice()),
                age_us,
            };
            Some(c)
        },
        _ => None,
    }
}

/// Strict parse of a decision-log line into its header and candidate
/// entries; `None` when anything is malformed.
pub fn parse_decision_line(line: &str) -> (r: Option<(DecisionHeader, Vec<CandidateFields>)>)
    ensures
        match r {
            Some(p) => spec_parse_decision(line@) == Some((p.0, candidate_views(p.1@))),
            None => spec_parse_decision(line@) is None,
        },
{
    let s = chars_of(line);
    if s.len() < 7 {
        return None;
    }
    if !(s[0] == 'G' && s[1] == 'T' && s[2] == 'P' && s[3] == 'D' && s[4] == 'L' && s[5] == '1'
        && s[6] == '|') {
        proof {
            if s@.take(6) == decision_prefix() {
                assert(s@.take(6)[0] == s@[0] && s@.take(6)[1] == s@[1] && s@.take(6)[2] == s@[2]
                    && s@.take(6)[3] == s@[3] && s@.take(6)[4] == s@[4] && s@.take(6)[5] == s@[5]);
            }
        }
        return None;
    }
    assert(s@.take(6) =~= decision_prefix());
    let mut rest: Vec<char> = Vec::new();
    let mut i: usize = 7;
    while i < s.len()
        invariant
            7 <= i <= s.len(),
            rest@ == s@.subrange(7, i as int),
        decreases s.len() - i,
    {
        rest.push(s[i]);
        i = i + 1;
        assert(rest@ =~= s@.subrange(7, i as int));
    }
    assert(rest@ =~= s@.skip(7));
    let parts = split_fields(rest.as_slice(), '|');
    let ghost sparts = split_bars(s@.skip(7));
    assert(parts@.len() == sparts.len());
    if parts.len() < 8 {
        return None;
    }
    let id = parse_u64_chars(parts[0].as_slice());
    let conn = parse_hex_u64_chars(parts[1].as_slice());
    let class = PolicyClass::from_code_chars(parts[2].as_slice());
    let window = opt_u64_field(parts[3].as_slice());
    let prev = opt_field(parts[4].as_slice());
    let sel = opt_field(parts[5].as_slice());
    let runner = opt_field(parts[6].as_slice());
    let reason = SelectionReason::from_code_chars(parts[7].as_slice());
    assert(sparts[0] == parts@[0]@ && sparts[1] == parts@[1]@ && sparts[2] == parts@[2]@
        && sparts[3] == parts@[3]@ && sparts[4] == parts@[4]@ && sparts[5] == parts@[5]@
        && sparts[6] == parts@[6]@ && sparts[7] == parts@[7]@);
    let header = match (id, conn, class, window, prev, sel, runner, reason) {
        (Some(id), Some(conn), Some(class), Some(w), Some(p), Some(sl), Some(ru), Some(reason)) => DecisionHeader {
            decision_id: id,
            connection_id: conn,
            policy_class: class,
            measurement_window_us: w,
            previous_path: p,
            selected_path: sl,
            runner_up: ru,
            reason,
        },
        _ => {
            return None;
        },
    };
    assert(spec_parse_header(sparts) == Some(header));
    let mut cands: Vec<CandidateFields> = Vec::new();
    let mut k: usize = 8;
    while k < parts.len()
        invariant
            s@ == line@,
            s@.len() >= 7,
            s@.take(6) == decision_prefix(),
            s@[6] == '|',
            sparts == split_bars(s@.skip(7)),
            spec_parse_header(sparts) == Some(header),
            8 <= k <= parts@.len(),
            parts@.len() == sparts.len(),
            forall|j: int| 0 <= j < parts@.len() ==> #[trigger] parts@[j]@ == sparts[j],
            cands@.len() == k - 8,
            forall|j: int|
                8 <= j < k ==> spec_parse_candidate(#[trigger] sparts[j]) == Some(cands@[j - 8]@),
        decreases parts.len() - k,
    {
        match parse_candidate(parts[k].as_slice()) {
            Some(c) => {
                cands.push(c);
            },
            None => {
                assert(spec_parse_candidate(sparts[k as int]) is None);
                assert(!candidates_parse(sparts));
                return None;
            },
        }
        k = k + 1;
    }
    proof {
        assert forall|j: int| 8 <= j < sparts.len() implies (#[trigger] spec_parse_candidate(sparts[j])) is Some by {
        }
        let got = Seq::new((sparts.len() - 8) as nat, |j: int| spec_parse_candidate(sparts[j + 8]).unwrap());
        assert forall|j: int| 0 <= j < got.len() implies got[j] == candidate_views(cands@)[j] by {
            assert(spec_parse_candidate(sparts[j + 8]) == Some(cands@[j]@));
        }
        assert(got =~= candidate_views(cands@));
    }
    Some((header, cands))
}

fn push_opt_u64(out: &mut String, v: Option<u64>)
    ensures
        final(out)@ == old(out)@ + opt_u64_text(v),
{
    match v {
        Some(x) => push_decimal(out, x),
        None => {
            proof { reveal_strlit("-"); }
            out.append("-");
        },
    }
}

fn push_opt_text(out: &mut String, v: &Option<Vec<char>>)
    ensures
        final(out)@ == old(out)@ + opt_text(opt_chars(*v)),
{
    match v {
        Some(t) => push_chars(out, t.as_slice()),
        None => {
            proof { reveal_strlit("-"); }
            out.append("-");
        },
    }
}

proof fn lemma_join_six(f: Seq<Seq<char>>, sep: char)
    requires
        f.len() == 6,
    ensures
        join_on(f, sep) == f[0] + seq![sep] + f[1] + seq![sep] + f[2] + seq![sep] + f[3] + seq![sep]
            + f[4] + seq![sep] + f[5],
{
    lemma_join_push(seq![f[0]], f[1], sep);
    lemma_join_push(seq![f[0], f[1]], f[2], sep);
    lemma_join_push(seq![f[0], f[1], f[2]], f[3], sep);
    lemma_join_push(seq![f[0], f[1], f[2], f[3]], f[4], sep);
    lemma_join_push(seq![f[0], f[1], f[2], f[3], f[4]], f[5], sep);
    assert(seq![f[0]].push(f[1]) =~= seq![f[0], f[1]]);
    assert(seq![f[0], f[1]].push(f[2]) =~= seq![f[0], f[1], f[2]]);
    assert(seq![f[0], f[1], f[2]].push(f[3]) =~= seq![f[0], f[1], f[2], f[3]]);
    assert(seq![f[0], f[1], f[2], f[3]].push(f[4]) =~= seq![f[0], f[1], f[2], f[3], f[4]]);
    assert(seq![f[0], f[1], f[2], f[3], f[4]].push(f[5]) =~= f);
}

proof fn lemma_join_eight(f: Seq<Seq<char>>, sep: char)
    requires
        f.len() == 8,
    ensures
        join_on(f, sep) == join_on(f.take(6), sep) + seq![sep] + f[6] + seq![sep] + f[7],
        join_on(f.take(6), sep) == f[0] + seq![sep] + f[1] + seq![sep] + f[2] + seq![sep] + f[3]
            + seq![sep] + f[4] + seq![sep] + f[5],
{
    let f6 = f.take(6);
    let f7 = f.take(7);
    lemma_join_six(f6, sep);
    lemma_join_push(f6, f[6], sep);
    lemma_join_push(f7, f[7], sep);
    assert(f6.push(f[6]) =~= f7);
    assert(f7.push(f[7]) =~= f);
}

fn push_candidate(out: &mut String, c: &CandidateFields)
    ensures
        final(out)@ == old(out)@ + candidate_text(c@),
{
    let ghost start = out@;
    proof { reveal_strlit(":"); }
    push_decimal(out, c.path_id as u64);
    out.append(":");
    push_opt_text(out, &c.score);
    out.append(":");
    push_chars(out, c.confidence.as_slice());
    out.append(":");
    push_chars(out, c.freshness.as_slice());
    out.append(":");
    push_opt_text(out, &c.effective);
    out.append(":");
    push_opt_u64(out, c.age_us);
    proof {
        let f = candidate_fields(c@);
        lemma_join_six(f, ':');
    }
    assert(out@ =~= start + candidate_text(c@));
}

fn push_header(out: &mut String, h: &DecisionHeader)
    ensures
        final(out)@ == old(out)@ + join_on(header_fields(*h), '|'),
{
    let ghost start = out@;
    proof { reveal_strlit("|"); }
    push_decimal(out, h.decision_id);
    out.append("|");
    push_upper_hex(out, h.connection_id);
    out.append("|");
    out.append(h.policy_class.code());
    out.append("|");
    push_opt_u64(out, h.measurement_window_us);
    out.append("|");
    push_field(out, h.previous_path);
    out.append("|");
    push_field(out, h.selected_path);
    let ghost six = out@;
    out.append("|");
    push_field(out, h.runner_up);
    out.append("|");
    out.append(h.reason.code());
    proof {
        let hf = header_fields(*h);
        lemma_join_eight(hf, '|');
        assert(six =~= start + join_on(hf.take(6), '|'));
    }
    assert(out@ =~= start + join_on(header_fields(*h), '|'));
}

/// Encodes a record as one decision-log line.
pub fn encode_decision_line(h: &DecisionHeader, cands: &[CandidateFields]) -> (line: String)
    ensures
        line@ == spec_encode_decision(*h, candidate_views(cands@)),
{
    let ghost hf = header_fields(*h);
    let mut out = String::new();
    proof { reveal_strlit("GTPDL1|"); }
    out.append("GTPDL1|");
    let ghost base = out@;
    assert(base =~= decision_prefix() + seq!['|']);
    push_header(&mut out, h);
    proof {
        assert(hf + candidate_views(cands@).take(0).map_values(|c: CandidateView| candidate_text(c)) =~= hf);
    }
    let mut i: usize = 0;
    while i < cands.len()
        invariant
            i <= cands@.len(),
            hf == header_fields(*h),
            hf.len() == 8,
            base == decision_prefix() + seq!['|'],
            out@ == base + join_on(
                hf + candidate_views(cands@).take(i as int).map_values(|c: CandidateView| candidate_text(c)),
                '|',
            ),
        decreases cands.len() - i,
    {
        let ghost before = hf + candidate_views(cands@).take(i as int).map_values(|c: CandidateView| candidate_text(c));
        let ghost mid = out@;
        proof { reveal_strlit("|"); }
        out.append("|");
        push_candidate(&mut out, &cands[i]);
        proof {
            let t = candidate_text(cands@[i as int]@);
            let after = hf + candidate_views(cands@).take(i + 1).map_values(|c: CandidateView| candidate_text(c));
            assert(after =~= before.push(t));
            lemma_join_push(before, t, '|');
            assert(out@ =~= mid + seq!['|'] + t);
            assert(out@ =~= base + join_on(after, '|'));
        }
        i = i + 1;
    }
    proof {
        assert(candidate_views(cands@).take(cands@.len() as int) =~= candidate_views(cands@));
    }
    out
}

} // verus!
