//! The reconciliation pipeline: candidate identity and stage recovered from
//! spans, bounded fallback traversal over the trace graph, per-stage
//! deduplication, and the exported metric objects the values are pushed to.

use vstd::prelude::*;

use crate::graph::Graph;
use crate::primitives::{spec_get_tag, spec_parse_u64, Span};

verus! {

/// Bound on how many nodes a fallback traversal may visit.
pub const MAX_RECURSION_DEPTH: usize = 10;

/// Tag key carrying a candidate's identity hash.
pub const HASH_IDENTIFIER: &'static str = "candidate-hash";

/// Tag key carrying a candidate's pipeline stage.
pub const STAGE_IDENTIFIER: &'static str = "candidate-stage";

/// How many stages there are, the "no stage" bucket included.
pub const NUM_STAGES: usize = 9;

/// A candidate's 32-byte identity.
pub type CandidateHash = [u8; 32];

// ---------------------------------------------------------------------------
// Stages
// ---------------------------------------------------------------------------

/// The ordinal pipeline phase a candidate is associated with. `NoStage` is the
/// bucket for candidates whose stage could not be recovered. New stages are
/// appended at the end, keeping the wire numbering ascending.
#[derive(Debug, Clone, Copy, PartialEq, Eq, Hash, Structural)]
pub enum Stage {
    NoStage,
    CandidateSelection,
    CandidateBacking,
    StatementDistribution,
    PoVDistribution,
    AvailabilityDistribution,
    AvailabilityRecovery,
    BitfieldDistribution,
    ApprovalChecking,
}

/// Raised when a number names no stage.
#[derive(Debug, Clone, Copy, PartialEq, Eq, Structural)]
pub struct UnknownStage;

impl Stage {
    /// The wire number of this stage.
    pub open spec fn spec_index(self) -> int {
        match self {
            Stage::NoStage => 0,
            Stage::CandidateSelection => 1,
            Stage::CandidateBacking => 2,
            Stage::StatementDistribution => 3,
            Stage::PoVDistribution => 4,
            Stage::AvailabilityDistribution => 5,
            Stage::AvailabilityRecovery => 6,
            Stage::BitfieldDistribution => 7,
            Stage::ApprovalChecking => 8,
        }
    }

    /// The stage a wire number names, if any.
    pub open spec fn spec_from_number(n: int) -> Option<Stage> {
        if n == 0 {
            Some(Stage::NoStage)
        } else if n == 1 {
            Some(Stage::CandidateSelection)
        } else if n == 2 {
            Some(Stage::CandidateBacking)
        } else if n == 3 {
            Some(Stage::StatementDistribution)
        } else if n == 4 {
            Some(Stage::PoVDistribution)
        } else if n == 5 {
            Some(Stage::AvailabilityDistribution)
        } else if n == 6 {
            Some(Stage::AvailabilityRecovery)
        } else if n == 7 {
            Some(Stage::BitfieldDistribution)
        } else if n == 8 {
            Some(Stage::ApprovalChecking)
        } else {
            None
        }
    }

    /// The wire number of this stage, exactly [`Stage::spec_index`].
    pub fn as_index(&self) -> (r: usize)
        ensures
            r == self.spec_index(),
            r < NUM_STAGES,
    {
        match self {
            Stage::NoStage => 0,
            Stage::CandidateSelection => 1,
            Stage::CandidateBacking => 2,
            Stage::StatementDistribution => 3,
            Stage::PoVDistribution => 4,
            Stage::AvailabilityDistribution => 5,
            Stage::AvailabilityRecovery => 6,
            Stage::BitfieldDistribution => 7,
            Stage::ApprovalChecking => 8,
        }
    }

    /// The stage `num` names; rejects numbers above the last stage, exactly as
    /// [`Stage::spec_from_number`] describes.
    pub fn try_from(num: usize) -> (r: Result<Stage, UnknownStage>)
        ensures
            match r {
                Ok(st) => Stage::spec_from_number(num as int) == Some(st),
                Err(_) => Stage::spec_from_number(num as int) is None,
            },
    {
        match num {
            0 => Ok(Stage::NoStage),
            1 => Ok(Stage::CandidateSelection),
            2 => Ok(Stage::CandidateBacking),
            3 => Ok(Stage::StatementDistribution),
            4 => Ok(Stage::PoVDistribution),
            5 => Ok(Stage::AvailabilityDistribution),
            6 => Ok(Stage::AvailabilityRecovery),
            7 => Ok(Stage::BitfieldDistribution),
            8 => Ok(Stage::ApprovalChecking),
            _ => Err(UnknownStage),
        }
    }

    /// Parse a stage from its decimal wire form, exactly as
    /// [`spec_parse_stage`] describes.
    pub fn from_str(s: &str) -> (r: Result<Stage, UnknownStage>)
        ensures
            match r {
                Ok(st) => spec_parse_stage(s@) == Some(st),
                Err(_) => spec_parse_stage(s@) is None,
            },
    {
        match crate::primitives::parse_u64(s) {
            None => Err(UnknownStage),
            Some(v) => {
                if v <= 8 {
                    Stage::try_from(v as usize)
                } else {
                    Err(UnknownStage)
                }
            },
        }
    }
}

/// The stage a decimal string names: parsed as a number, then mapped; any
/// other value names no stage.
pub open spec fn spec_parse_stage(s: Seq<char>) -> Option<Stage> {
    match spec_parse_u64(s) {
        None => None,
        Some(v) => Stage::spec_from_number(v as int),
    }
}

// ---------------------------------------------------------------------------
// Hash decoding
// ---------------------------------------------------------------------------

/// True for the twenty-two characters that denote a hex digit.
pub open spec fn is_hex_digit(c: char) -> bool {
    ('0' <= c && c <= '9') || ('a' <= c && c <= 'f') || ('A' <= c && c <= 'F')
}

/// Numeric value of a hex digit character.
pub open spec fn hex_digit_val(c: char) -> nat {
    if '0' <= c && c <= '9' {
        (c as int - '0' as int) as nat
    } else if 'a' <= c && c <= 'f' {
        (c as int - 'a' as int + 10) as nat
    } else if 'A' <= c && c <= 'F' {
        (c as int - 'A' as int + 10) as nat
    } else {
        0
    }
}

#[verifier::external_type_specification]
#[verifier::external_body]
pub struct ExFromHexError(hex::FromHexError);

/// Relies on `hex::decode_to_slice` into a 32-byte buffer: it succeeds exactly
/// on a string of 64 hex digits, and writes each pair of digits as one byte,
/// high digit first.
#[verifier::external_body]
fn hex_decode_32(s: &str) -> (r: Result<[u8; 32], hex::FromHexError>)
    ensures
        match r {
            Ok(out) => s@.len() == 64 && (forall|i: int|
                0 <= i < s@.len() ==> is_hex_digit(#[trigger] s@[i])) && (forall|i: int|
                0 <= i < 32 ==> #[trigger] out@[i] == 16 * hex_digit_val(s@[2 * i])
                    + hex_digit_val(s@[2 * i + 1])),
            Err(_) => !(s@.len() == 64 && (forall|i: int|
                0 <= i < s@.len() ==> is_hex_digit(#[trigger] s@[i]))),
        },
{
    let mut out = [0u8; 32];
    match hex::decode_to_slice(s, &mut out) {
        Ok(()) => Ok(out),
        Err(e) => Err(e),
    }
}

/// Thirty-two zero bytes: the decoded form that stands for "no identity".
pub open spec fn zero_hash() -> Seq<u8> {
    Seq::new(32, |i: int| 0u8)
}

/// The stage a span's own stage tag denotes, if the tag is there and parses.
pub open spec fn spec_stage_of_span(s: Span) -> Option<Stage> {
    match spec_get_tag(s.tags@, "candidate-stage"@) {
        None => None,
        Some(t) => spec_parse_stage(t.value.spec_string()),
    }
}

/// The identity a span's own hash tag denotes: the tag's text with its
/// two-character prefix stripped must read as 64 hex digits, and the decoded
/// bytes must not be all zero.
pub open spec fn spec_hash_of_span(s: Span) -> Option<Seq<u8>> {
    match spec_get_tag(s.tags@, "candidate-hash"@) {
        None => None,
        Some(t) => {
            let v = t.value.spec_string();
            if v.len() < 2 {
                None
            } else {
                let hexpart = v.skip(2);
                if hexpart.len() == 64 && (forall|i: int|
                    0 <= i < hexpart.len() ==> is_hex_digit(#[trigger] hexpart[i])) {
                    let bytes = Seq::new(
                        32,
                        |i: int|
                            (16 * hex_digit_val(hexpart[2 * i]) + hex_digit_val(
                                hexpart[2 * i + 1],
                            )) as u8,
                    );
                    if bytes == zero_hash() {
                        None
                    } else {
                        Some(bytes)
                    }
                } else {
                    None
                }
            }
        },
    }
}

/// Read the span's own stage tag, exactly as [`spec_stage_of_span`] describes;
/// a missing or unparsable tag reads as absent.
pub fn extract_stage_from_span(item: &Span) -> (r: Option<Stage>)
    ensures
        r == spec_stage_of_span(*item),
{
    match item.get_tag(STAGE_IDENTIFIER) {
        None => None,
        Some(t) => {
            let v = t.value();
            match Stage::from_str(v.as_str()) {
                Ok(st) => Some(st),
                Err(_) => None,
            }
        },
    }
}

/// Read the span's own hash tag, exactly as [`spec_hash_of_span`] describes; a
/// missing or undecodable tag, and the all-zero hash, read as absent.
pub fn extract_hash_from_span(span: &Span) -> (r: Option<CandidateHash>)
    ensures
        match r {
            Some(h) => spec_hash_of_span(*span) == Some(h@),
            None => spec_hash_of_span(*span) is None,
        },
{
    match span.get_tag(HASH_IDENTIFIER) {
        None => None,
        Some(t) => {
            let v = t.value();
            let len = v.as_str().unicode_len();
            if len < 2 {
                return None;
            }
            let hexpart = v.as_str().substring_char(2, len);
            assert(hexpart@ =~= v@.skip(2));
            match hex_decode_32(hexpart) {
                Err(_) => None,
                Ok(h) => {
                    proof {
                        assert(h@ =~= Seq::new(
                            32,
                            |i: int|
                                (16 * hex_digit_val(hexpart@[2 * i]) + hex_digit_val(
                                    hexpart@[2 * i + 1],
                                )) as u8,
                        ));
                    }
                    let mut all_zero = true;
                    let mut i: usize = 0;
                    while i < 32
                        invariant
                            0 <= i <= 32,
                            all_zero <==> (forall|k: int| 0 <= k < i ==> #[trigger] h@[k] == 0),
                        decreases 32 - i,
                    {
                        if h[i] != 0 {
                            all_zero = false;
                        }
                        i = i + 1;
                    }
                    if all_zero {
                        proof {
                            assert(h@ =~= zero_hash());
                        }
                        None
                    } else {
                        proof {
                            assert(h@ != zero_hash()) by {
                                let k = choose|k: int| 0 <= k < 32 && #[trigger] h@[k] != 0;
                                assert(zero_hash()[k] == 0);
                            };
                        }
                        Some(h)
                    }
                },
            }
        },
    }
}

// ---------------------------------------------------------------------------
// Candidates
// ---------------------------------------------------------------------------

/// The mathematical content of a [`Candidate`].
pub ghost struct CandidateView {
    pub hash: Seq<u8>,
    pub operation: Seq<char>,
    pub start_time: u64,
    pub duration: u64,
    pub stage: Stage,
}

/// The reconstructed domain entity one span pertains to: identified by its
/// hash, carrying the span's operation name and timing, associated with a
/// stage. Rebuilt every cycle, never persisted.
#[derive(Debug, PartialEq)]
pub struct Candidate {
    pub hash: CandidateHash,
    pub operation: String,
    pub start_time: u64,
    pub duration: u64,
    pub stage: Stage,
}

impl View for Candidate {
    type V = CandidateView;

    open spec fn view(&self) -> CandidateView {
        CandidateView {
            hash: self.hash@,
            operation: self.operation@,
            start_time: self.start_time,
            duration: self.duration,
            stage: self.stage,
        }
    }
}

/// The stage to fall back on when none was recovered.
pub open spec fn stage_or_default(o: Option<Stage>) -> Stage {
    match o {
        Some(st) => st,
        None => Stage::NoStage,
    }
}

impl Candidate {
    /// The candidate a span yields from its own tags alone: none without a
    /// hash; without a stage, the no-stage bucket.
    pub open spec fn spec_of_span(s: Span) -> Option<CandidateView> {
        match spec_hash_of_span(s) {
            None => None,
            Some(h) => Some(
                CandidateView {
                    hash: h,
                    operation: s.operation_name@,
                    start_time: s.start_time,
                    duration: s.duration,
                    stage: stage_or_default(spec_stage_of_span(s)),
                },
            ),
        }
    }

    /// Build the candidate a span yields from its own tags, exactly as
    /// [`Candidate::spec_of_span`] describes.
    pub fn from_span(span: &Span) -> (r: Option<Candidate>)
        ensures
            match r {
                Some(c) => Candidate::spec_of_span(*span) == Some(c@),
                None => Candidate::spec_of_span(*span) is None,
            },
    {
        let hash = extract_hash_from_span(span);
        let stage = match extract_stage_from_span(span) {
            Some(st) => st,
            None => Stage::NoStage,
        };
        match hash {
            None => None,
            Some(h) => Some(
                Candidate {
                    hash: h,
                    operation: span.operation_name.clone(),
                    start_time: span.start_time,
                    duration: span.duration,
                    stage,
                },
            ),
        }
    }
}

// ---------------------------------------------------------------------------
// Fallback resolution
// ---------------------------------------------------------------------------

/// The hash supplied by the first span of `order` that carries one, if any.
pub open spec fn spec_first_hash(spans: Seq<Span>, order: Seq<int>) -> Option<Seq<u8>>
    decreases order.len(),
{
    if order.len() == 0 {
        None
    } else {
        match spec_hash_of_span(spans[order[0]]) {
            Some(h) => Some(h),
            None => spec_first_hash(spans, order.drop_first()),
        }
    }
}

/// The stage supplied by the first span of `order` that carries one, if any.
pub open spec fn spec_first_stage(spans: Seq<Span>, order: Seq<int>) -> Option<Stage>
    decreases order.len(),
{
    if order.len() == 0 {
        None
    } else {
        match spec_stage_of_span(spans[order[0]]) {
            Some(st) => Some(st),
            None => spec_first_stage(spans, order.drop_first()),
        }
    }
}

/// Keep `a` if it is set, else fall back to `b`.
pub open spec fn or_else_hash(a: Option<Seq<u8>>, b: Option<Seq<u8>>) -> Option<Seq<u8>> {
    if a is Some {
        a
    } else {
        b
    }
}

/// Keep `a` if it is set, else fall back to `b`.
pub open spec fn or_else_stage(a: Option<Stage>, b: Option<Stage>) -> Option<Stage> {
    if a is Some {
        a
    } else {
        b
    }
}

/// The descendants a fallback traversal visits: a depth-first walk from the
/// span's children, at most [`MAX_RECURSION_DEPTH`] nodes.
pub open spec fn spec_desc_order<'a>(g: Graph<'a>, i: int) -> Seq<int> {
    g.bounded_dfs(g.children_at(i), MAX_RECURSION_DEPTH as nat)
}

/// The ancestors a fallback traversal visits: the parent chain nearest first,
/// at most [`MAX_RECURSION_DEPTH`] nodes.
pub open spec fn spec_anc_order<'a>(g: Graph<'a>, i: int) -> Seq<int> {
    crate::graph::seq_prefix(g.spec_ancestors(i), MAX_RECURSION_DEPTH as nat)
}

/// The hash and stage resolution recovers for span `i`: its own tags first;
/// when either is missing and the descendant fallback is on, the bounded
/// descendant walk fills what it can; when either is still missing and the
/// ancestor fallback is on, the bounded ancestor walk does the same.
pub open spec fn spec_resolve_fields<'a>(g: Graph<'a>, i: int, rc: bool, rp: bool) -> (
    Option<Seq<u8>>,
    Option<Stage>,
) {
    let spans = g.trace.spans@;
    let h0 = spec_hash_of_span(spans[i]);
    let st0 = spec_stage_of_span(spans[i]);
    let desc = rc && (h0 is None || st0 is None);
    let h1 = if desc {
        or_else_hash(h0, spec_first_hash(spans, spec_desc_order(g, i)))
    } else {
        h0
    };
    let st1 = if desc {
        or_else_stage(st0, spec_first_stage(spans, spec_desc_order(g, i)))
    } else {
        st0
    };
    let anc = rp && (h1 is None || st1 is None);
    let h2 = if anc {
        or_else_hash(h1, spec_first_hash(spans, spec_anc_order(g, i)))
    } else {
        h1
    };
    let st2 = if anc {
        or_else_stage(st1, spec_first_stage(spans, spec_anc_order(g, i)))
    } else {
        st1
    };
    (h2, st2)
}

/// The candidate resolution yields for span `i`: none without a hash; with a
/// hash but no stage, the no-stage bucket.
pub open spec fn spec_resolve<'a>(g: Graph<'a>, i: int, rc: bool, rp: bool) -> Option<
    CandidateView,
> {
    let s = g.trace.spans@[i];
    match spec_resolve_fields(g, i, rc, rp).0 {
        None => None,
        Some(h) => Some(
            CandidateView {
                hash: h,
                operation: s.operation_name@,
                start_time: s.start_time,
                duration: s.duration,
                stage: stage_or_default(spec_resolve_fields(g, i, rc, rp).1),
            },
        ),
    }
}

/// What an optional decoded hash denotes.
pub open spec fn opt_hash_view(h: Option<CandidateHash>) -> Option<Seq<u8>> {
    match h {
        Some(a) => Some(a@),
        None => None,
    }
}

/// Scan the spans of `order` in turn, filling whichever of hash and stage is
/// still missing with the first value a span supplies.
fn scan_order(
    spans: &Vec<Span>,
    order: &Vec<usize>,
    hash: Option<CandidateHash>,
    stage: Option<Stage>,
) -> (r: (Option<CandidateHash>, Option<Stage>))
    requires
        forall|k: int| 0 <= k < order@.len() ==> #[trigger] order@[k] < spans@.len(),
    ensures
        opt_hash_view(r.0) == or_else_hash(
            opt_hash_view(hash),
            spec_first_hash(spans@, order@.map_values(|u: usize| u as int)),
        ),
        r.1 == or_else_stage(
            stage,
            spec_first_stage(spans@, order@.map_values(|u: usize| u as int)),
        ),
{
    let ghost lifted = order@.map_values(|u: usize| u as int);
    let mut cur_hash = hash;
    let mut cur_stage = stage;
    let n = order.len();
    let mut k: usize = 0;
    assert(lifted.skip(0) =~= lifted);
    while k < n
        invariant
            0 <= k <= n == order@.len(),
            lifted == order@.map_values(|u: usize| u as int),
            forall|k2: int| 0 <= k2 < order@.len() ==> #[trigger] order@[k2] < spans@.len(),
            or_else_hash(opt_hash_view(cur_hash), spec_first_hash(spans@, lifted.skip(k as int)))
                == or_else_hash(opt_hash_view(hash), spec_first_hash(spans@, lifted)),
            or_else_stage(cur_stage, spec_first_stage(spans@, lifted.skip(k as int)))
                == or_else_stage(stage, spec_first_stage(spans@, lifted)),
        decreases n - k,
    {
        let c = &spans[order[k]];
        proof {
            assert(lifted.skip(k as int)[0] == lifted[k as int]);
            assert(lifted.skip(k as int).drop_first() =~= lifted.skip(k as int + 1));
        }
        if cur_hash.is_none() {
            cur_hash = extract_hash_from_span(c);
        }
        if cur_stage.is_none() {
            cur_stage = extract_stage_from_span(c);
        }
        k = k + 1;
    }
    assert(lifted.skip(n as int) =~= Seq::<int>::empty());
    (cur_hash, cur_stage)
}

/// Resolve span `span_idx` of the graph's trace to a candidate, exactly as
/// [`spec_resolve`] describes: the span's own tags first; bounded descendant
/// then ancestor traversal for whatever is missing, each only if enabled; no
/// candidate without a hash; the no-stage bucket without a stage.
pub fn resolve<'a>(
    graph: &Graph<'a>,
    span_idx: usize,
    recurse_children: bool,
    recurse_parents: bool,
) -> (r: Option<Candidate>)
    requires
        graph.wf(),
        span_idx < graph.spec_len(),
    ensures
        match r {
            Some(c) => spec_resolve(*graph, span_idx as int, recurse_children, recurse_parents)
                == Some(c@),
            None => spec_resolve(*graph, span_idx as int, recurse_children, recurse_parents)
                is None,
        },
{
    let span = &graph.trace.spans[span_idx];
    let mut hash = extract_hash_from_span(span);
    let mut stage = extract_stage_from_span(span);
    if recurse_children && (hash.is_none() || stage.is_none()) {
        let order = graph.dfs_walk(&graph.children[span_idx], MAX_RECURSION_DEPTH);
        proof {
            assert(graph.children@[span_idx as int]@.map_values(|u: usize| u as int)
                =~= graph.children_at(span_idx as int));
        }
        let scanned = scan_order(&graph.trace.spans, &order, hash, stage);
        hash = scanned.0;
        stage = scanned.1;
    }
    if recurse_parents && (hash.is_none() || stage.is_none()) {
        let order = graph.ancestors_walk(span_idx, MAX_RECURSION_DEPTH);
        let scanned = scan_order(&graph.trace.spans, &order, hash, stage);
        hash = scanned.0;
        stage = scanned.1;
    }
    let stage_final = match stage {
        Some(st) => st,
        None => Stage::NoStage,
    };
    match hash {
        None => None,
        Some(h) => Some(
            Candidate {
                hash: h,
                operation: span.operation_name.clone(),
                start_time: span.start_time,
                duration: span.duration,
                stage: stage_final,
            },
        ),
    }
}

// ---------------------------------------------------------------------------
// The metrics store
// ---------------------------------------------------------------------------

/// The mathematical content of the per-stage candidate lists.
pub open spec fn lists_view(candidates: Seq<Vec<Candidate>>) -> Seq<Seq<CandidateView>> {
    candidates.map_values(|l: Vec<Candidate>| l@.map_values(|c: Candidate| c@))
}

/// The hashes of a list of candidates, in order.
pub open spec fn hashes_of(cands: Seq<CandidateView>) -> Seq<Seq<u8>> {
    cands.map_values(|cv: CandidateView| cv.hash)
}

/// How many distinct hashes a list of candidates carries.
pub open spec fn distinct_hashes(cands: Seq<CandidateView>) -> int {
    hashes_of(cands).to_set().len() as int
}

/// Ingesting one candidate: it is appended to its stage's list.
pub open spec fn spec_insert_candidate(
    lists: Seq<Seq<CandidateView>>,
    c: CandidateView,
) -> Seq<Seq<CandidateView>> {
    lists.update(c.stage.spec_index(), lists[c.stage.spec_index()].push(c))
}

/// How creating the metrics store can fail.
#[derive(Debug, Clone, Copy, PartialEq, Eq, Structural)]
pub enum MetricsError {
    /// The metrics registry did not accept an exported metric object.
    Registration,
}

/// The fixed histogram bucket bounds: linear, 250 ms wide, from 250 ms to
/// 21,000 ms. Range and granularity are a tunable constant, not derived data.
pub fn histogram_buckets() -> (r: Vec<u64>)
    ensures
        r@.len() == 84,
        forall|k: int| 0 <= k < r@.len() ==> #[trigger] r@[k] == 250 * (k + 1),
{
    let mut out: Vec<u64> = Vec::new();
    let mut k: usize = 0;
    while k < 84
        invariant
            0 <= k <= 84,
            out@.len() == k,
            forall|k2: int| 0 <= k2 < k ==> #[trigger] out@[k2] == 250 * (k2 + 1),
        decreases 84 - k,
    {
        out.push((250 * (k as u64)) + 250);
        k = k + 1;
    }
    out
}

/// The process-wide metrics store: the per-cycle candidate lists, one per
/// stage, and the persistent exported metric objects whose identities survive
/// across cycles while only their observed values are refreshed.
pub struct Metrics {
    /// Candidates observed in the current cycle, one list per stage, indexed
    /// by the stage's wire number.
    pub candidates: Vec<Vec<Candidate>>,
    /// Total number of distinct candidates this node registered.
    pub parachain_total_candidates: crate::prom::GaugeHandle,
    /// Distinct candidates per stage; index zero is the no-stage bucket.
    pub parachain_stage_gauges: Vec<crate::prom::GaugeHandle>,
    /// Duration distribution per stage, in milliseconds.
    pub parachain_stage_histograms: Vec<prometheus::Histogram>,
    /// Walk ancestor spans for missing tags.
    pub recurse_parents: bool,
    /// Walk descendant spans for missing tags.
    pub recurse_children: bool,
    /// The registry the exported objects are registered in.
    pub registry: prometheus::Registry,
}

impl Metrics {
    /// One candidate list and one exported object per stage.
    pub open spec fn wf(self) -> bool {
        &&& self.candidates@.len() == NUM_STAGES
        &&& self.parachain_stage_gauges@.len() == NUM_STAGES
        &&& self.parachain_stage_histograms@.len() == NUM_STAGES
    }

    /// All per-cycle candidate lists are empty.
    pub open spec fn lists_empty(self) -> bool {
        forall|i: int|
            0 <= i < self.candidates@.len() ==> #[trigger] lists_view(self.candidates@)[i].len()
                == 0
    }

    /// Create the store with empty candidate lists and register the exported
    /// metric objects in a fresh registry; fails only when the registry
    /// rejects a registration.
    pub fn new(daemon: &crate::cli::Daemon) -> (r: Result<Metrics, MetricsError>)
        ensures
            match r {
                Ok(m) => {
                    &&& m.wf()
                    &&& m.lists_empty()
                    &&& m.recurse_parents == daemon.recurse_parents
                    &&& m.recurse_children == daemon.recurse_children
                },
                Err(e) => e == MetricsError::Registration,
            },
    {
        let registry = crate::prom::new_registry();
        let parachain_total_candidates = match crate::prom::GaugeHandle::new(
            "parachain_total_candidates",
            "Total candidates registered on this node",
        ) {
            Ok(g) => g,
            Err(_) => {
                return Err(MetricsError::Registration);
            },
        };
        if parachain_total_candidates.register(&registry).is_err() {
            return Err(MetricsError::Registration);
        }
        let buckets = histogram_buckets();
        let mut parachain_stage_gauges: Vec<crate::prom::GaugeHandle> = Vec::new();
        let mut parachain_stage_histograms: Vec<prometheus::Histogram> = Vec::new();
        let mut candidates: Vec<Vec<Candidate>> = Vec::new();
        let mut i: usize = 0;
        while i < NUM_STAGES
            invariant
                0 <= i <= NUM_STAGES,
                parachain_stage_gauges@.len() == i,
                parachain_stage_histograms@.len() == i,
                candidates@.len() == i,
                forall|k: int| 0 <= k < i ==> #[trigger] candidates@[k]@.len() == 0,
            decreases NUM_STAGES - i,
        {
            let num = crate::primitives::u64_to_string(i as u64);
            let gauge_name = "stage_".to_owned().concat(num.as_str()).concat("_candidates");
            let gauge_help = if i == 0 {
                "Total Candidates without an associated stage".to_owned()
            } else {
                "Total Candidates on Stage ".to_owned().concat(num.as_str())
            };
            let gauge = match crate::prom::GaugeHandle::new(
                gauge_name.as_str(),
                gauge_help.as_str(),
            ) {
                Ok(g) => g,
                Err(_) => {
                    return Err(MetricsError::Registration);
                },
            };
            if gauge.register(&registry).is_err() {
                return Err(MetricsError::Registration);
            }
            let histogram_name = "stage_".to_owned().concat(num.as_str()).concat("_duration");
            let histogram = match crate::prom::new_histogram(
                histogram_name.as_str(),
                "Distributions of the time it takes for stage to complete",
                &buckets,
            ) {
                Ok(h) => h,
                Err(_) => {
                    return Err(MetricsError::Registration);
                },
            };
            if crate::prom::register_histogram(&registry, &histogram).is_err() {
                return Err(MetricsError::Registration);
            }
            parachain_stage_gauges.push(gauge);
            parachain_stage_histograms.push(histogram);
            candidates.push(Vec::new());
            i = i + 1;
        }
        Ok(
            Metrics {
                candidates,
                parachain_total_candidates,
                parachain_stage_gauges,
                parachain_stage_histograms,
                recurse_parents: daemon.recurse_parents,
                recurse_children: daemon.recurse_children,
                registry,
            },
        )
    }

    /// The registry the exported objects live in, for serving scrapes.
    pub fn registry(&self) -> (r: &prometheus::Registry)
        ensures
            r == self.registry,
    {
        &self.registry
    }

    /// The duration histogram of the stage numbered `i`.
    pub fn stage_histogram(&self, i: usize) -> (r: &prometheus::Histogram)
        requires
            self.wf(),
            i < NUM_STAGES,
        ensures
            r == self.parachain_stage_histograms@[i as int],
    {
        &self.parachain_stage_histograms[i]
    }

    /// Forget the current cycle's candidates. The exported metric objects are
    /// untouched: only a flush changes what scrapes see.
    pub fn clear(&mut self)
        requires
            old(self).wf(),
        ensures
            final(self).wf(),
            final(self).lists_empty(),
            final(self).parachain_total_candidates == old(self).parachain_total_candidates,
            final(self).parachain_stage_gauges == old(self).parachain_stage_gauges,
            final(self).parachain_stage_histograms == old(self).parachain_stage_histograms,
            final(self).recurse_parents == old(self).recurse_parents,
            final(self).recurse_children == old(self).recurse_children,
            final(self).registry == old(self).registry,
    {
        let mut i: usize = 0;
        while i < NUM_STAGES
            invariant
                0 <= i <= NUM_STAGES,
                self.wf(),
                forall|k: int| 0 <= k < i ==> #[trigger] self.candidates@[k]@.len() == 0,
                self.parachain_total_candidates == old(self).parachain_total_candidates,
                self.parachain_stage_gauges == old(self).parachain_stage_gauges,
                self.parachain_stage_histograms == old(self).parachain_stage_histograms,
                self.recurse_parents == old(self).recurse_parents,
                self.recurse_children == old(self).recurse_children,
                self.registry == old(self).registry,
            decreases NUM_STAGES - i,
        {
            self.candidates[i].clear();
            i = i + 1;
        }
    }

    /// Append a candidate to its stage's list, exactly as
    /// [`spec_insert_candidate`] describes.
    pub fn insert_candidate(&mut self, candidate: Candidate)
        requires
            old(self).wf(),
        ensures
            final(self).wf(),
            lists_view(final(self).candidates@) == spec_insert_candidate(
                lists_view(old(self).candidates@),
                candidate@,
            ),
            final(self).parachain_total_candidates == old(self).parachain_total_candidates,
            final(self).parachain_stage_gauges == old(self).parachain_stage_gauges,
            final(self).parachain_stage_histograms == old(self).parachain_stage_histograms,
            final(self).recurse_parents == old(self).recurse_parents,
            final(self).recurse_children == old(self).recurse_children,
            final(self).registry == old(self).registry,
    {
        let ghost before = self.candidates@;
        let ghost cv = candidate@;
        let idx = candidate.stage.as_index();
        self.candidates[idx].push(candidate);
        proof {
            assert(lists_view(self.candidates@) =~= spec_insert_candidate(
                lists_view(before),
                cv,
            )) by {
                assert(self.candidates@[idx as int]@ =~= before[idx as int]@.push(candidate));
                assert(self.candidates@[idx as int]@.map_values(|c: Candidate| c@)
                    =~= before[idx as int]@.map_values(|c: Candidate| c@).push(cv));
                assert(forall|k: int|
                    0 <= k < before.len() && k != idx ==> #[trigger] self.candidates@[k]
                        == before[k]);
            };
        }
    }

    /// Ingest the candidate a span yields from its own tags, if any; no
    /// fallback traversal is attempted here.
    pub fn insert(&mut self, span: &Span)
        requires
            old(self).wf(),
        ensures
            final(self).wf(),
            lists_view(final(self).candidates@) == match Candidate::spec_of_span(*span) {
                Some(cv) => spec_insert_candidate(lists_view(old(self).candidates@), cv),
                None => lists_view(old(self).candidates@),
            },
            final(self).parachain_total_candidates == old(self).parachain_total_candidates,
            final(self).parachain_stage_gauges == old(self).parachain_stage_gauges,
            final(self).parachain_stage_histograms == old(self).parachain_stage_histograms,
            final(self).recurse_parents == old(self).recurse_parents,
            final(self).recurse_children == old(self).recurse_children,
            final(self).registry == old(self).registry,
    {
        if let Some(c) = Candidate::from_span(span) {
            self.insert_candidate(c);
        }
    }

    /// Resolve one span of the graph's trace under this store's fallback
    /// switches, exactly as [`spec_resolve`] describes.
    pub fn try_resolve_missing<'a>(&self, graph: &Graph<'a>, span_idx: usize) -> (r: Option<
        Candidate,
    >)
        requires
            graph.wf(),
            span_idx < graph.spec_len(),
        ensures
            match r {
                Some(c) => spec_resolve(
                    *graph,
                    span_idx as int,
                    self.recurse_children,
                    self.recurse_parents,
                ) == Some(c@),
                None => spec_resolve(
                    *graph,
                    span_idx as int,
                    self.recurse_children,
                    self.recurse_parents,
                ) is None,
            },
    {
        resolve(graph, span_idx, self.recurse_children, self.recurse_parents)
    }
}

// ---------------------------------------------------------------------------
// Deduplication
// ---------------------------------------------------------------------------

/// Compare two identity hashes byte for byte.
fn hash_eq(a: &CandidateHash, b: &CandidateHash) -> (r: bool)
    ensures
        r == (a@ == b@),
{
    let mut i: usize = 0;
    while i < 32
        invariant
            0 <= i <= 32,
            forall|k: int| 0 <= k < i ==> #[trigger] a@[k] == b@[k],
        decreases 32 - i,
    {
        if a[i] != b[i] {
            return false;
        }
        i = i + 1;
    }
    assert(a@ =~= b@);
    true
}

/// The hashes of a candidate list, in order.
fn stage_hashes(list: &Vec<Candidate>) -> (r: Vec<CandidateHash>)
    ensures
        r@.map_values(|a: CandidateHash| a@) == hashes_of(
            list@.map_values(|c: Candidate| c@),
        ),
{
    let mut out: Vec<CandidateHash> = Vec::new();
    let n = list.len();
    let mut i: usize = 0;
    while i < n
        invariant
            0 <= i <= n == list@.len(),
            out@.len() == i,
            forall|k: int| 0 <= k < i ==> #[trigger] out@[k]@ == list@[k].hash@,
        decreases n - i,
    {
        let h = list[i].hash;
        out.push(h);
        i = i + 1;
    }
    proof {
        assert(out@.map_values(|a: CandidateHash| a@) =~= hashes_of(
            list@.map_values(|c: Candidate| c@),
        ));
    }
    out
}

/// Count the distinct hashes of `hashes`: the size of the set they form.
fn count_distinct_hashes(hashes: &Vec<CandidateHash>) -> (r: usize)
    ensures
        r == hashes@.map_values(|a: CandidateHash| a@).to_set().len(),
{
    broadcast use vstd::set::group_set_axioms;

    let ghost lifted = hashes@.map_values(|a: CandidateHash| a@);
    let mut count: usize = 0;
    let ghost mut seen: Set<Seq<u8>> = Set::empty();
    let n = hashes.len();
    let mut i: usize = 0;
    while i < n
        invariant
            0 <= i <= n == hashes@.len(),
            lifted == hashes@.map_values(|a: CandidateHash| a@),
            seen == lifted.take(i as int).to_set(),
            seen.finite(),
            count == seen.len(),
            count <= i,
        decreases n - i,
    {
        let mut dup = false;
        let mut j: usize = 0;
        while j < i
            invariant
                0 <= j <= i < n == hashes@.len(),
                lifted == hashes@.map_values(|a: CandidateHash| a@),
                dup <==> (exists|k: int| 0 <= k < j && #[trigger] lifted[k] == lifted[i as int]),
            decreases i - j,
        {
            let eq = hash_eq(&hashes[j], &hashes[i]);
            proof {
                assert(lifted[j as int] == hashes@[j as int]@);
                assert(lifted[i as int] == hashes@[i as int]@);
            }
            if eq {
                dup = true;
                assert(lifted[j as int] == lifted[i as int]);
            }
            j = j + 1;
        }
        proof {
            let prefix = lifted.take(i as int);
            let longer = lifted.take(i as int + 1);
            assert(longer.drop_last() =~= prefix);
            assert(longer.last() == lifted[i as int]);
            assert(longer =~= prefix.push(lifted[i as int]));
            assert(dup <==> prefix.to_set().contains(lifted[i as int])) by {
                if dup {
                    let k = choose|k: int|
                        0 <= k < i && #[trigger] lifted[k] == lifted[i as int];
                    assert(prefix[k] == lifted[i as int]);
                    assert(prefix.contains(lifted[i as int]));
                }
                if prefix.to_set().contains(lifted[i as int]) {
                    assert(prefix.contains(lifted[i as int]));
                    let k = choose|k: int|
                        0 <= k < prefix.len() && #[trigger] prefix[k] == lifted[i as int];
                    assert(lifted[k] == lifted[i as int]);
                }
            };
            assert(longer.to_set() =~= prefix.to_set().insert(lifted[i as int])) by {
                assert forall|x: Seq<u8>| longer.to_set().contains(x) implies prefix.to_set()
                    .insert(lifted[i as int]).contains(x) by {
                    let k = choose|k: int|
                        0 <= k < longer.len() && #[trigger] longer[k] == x;
                    if k < i as int {
                        assert(prefix[k] == x);
                        assert(prefix.contains(x));
                    }
                };
                assert forall|x: Seq<u8>| prefix.to_set().insert(lifted[i as int]).contains(
                    x,
                ) implies longer.to_set().contains(x) by {
                    if prefix.to_set().contains(x) {
                        let k = choose|k: int|
                            0 <= k < prefix.len() && #[trigger] prefix[k] == x;
                        assert(longer[k] == x);
                        assert(longer.contains(x));
                    } else {
                        assert(longer[i as int] == x);
                        assert(longer.contains(x));
                    }
                };
            };
        }
        if !dup {
            count = count + 1;
            proof {
                seen = seen.insert(lifted[i as int]);
            }
        } else {
            proof {
                assert(seen.insert(lifted[i as int]) =~= seen);
                seen = seen.insert(lifted[i as int]);
            }
        }
        i = i + 1;
    }
    proof {
        assert(lifted.take(n as int) =~= lifted);
    }
    count
}

// ---------------------------------------------------------------------------
// Collection over one trace
// ---------------------------------------------------------------------------

/// What ingesting the resolutions of the first `upto` spans of the graph's
/// trace makes of the candidate lists, in span order.
pub open spec fn spec_collect<'a>(
    lists: Seq<Seq<CandidateView>>,
    g: Graph<'a>,
    rc: bool,
    rp: bool,
    upto: int,
) -> Seq<Seq<CandidateView>>
    decreases upto,
{
    if upto <= 0 {
        lists
    } else {
        let prev = spec_collect(lists, g, rc, rp, upto - 1);
        match spec_resolve(g, upto - 1, rc, rp) {
            Some(cv) => spec_insert_candidate(prev, cv),
            None => prev,
        }
    }
}

impl Metrics {
    /// Resolve every span of the graph's trace and ingest each candidate
    /// found, in span order; exactly as [`spec_collect`] describes.
    pub fn collect_candidates<'a>(&mut self, graph: &Graph<'a>)
        requires
            old(self).wf(),
            graph.wf(),
        ensures
            final(self).wf(),
            lists_view(final(self).candidates@) == spec_collect(
                lists_view(old(self).candidates@),
                *graph,
                old(self).recurse_children,
                old(self).recurse_parents,
                graph.spec_len(),
            ),
            final(self).parachain_total_candidates == old(self).parachain_total_candidates,
            final(self).parachain_stage_gauges == old(self).parachain_stage_gauges,
            final(self).parachain_stage_histograms == old(self).parachain_stage_histograms,
            final(self).recurse_parents == old(self).recurse_parents,
            final(self).recurse_children == old(self).recurse_children,
            final(self).registry == old(self).registry,
    {
        let ghost before = lists_view(old(self).candidates@);
        let n = graph.trace.spans.len();
        let mut i: usize = 0;
        while i < n
            invariant
                0 <= i <= n == graph.spec_len(),
                graph.wf(),
                self.wf(),
                lists_view(self.candidates@) == spec_collect(
                    before,
                    *graph,
                    old(self).recurse_children,
                    old(self).recurse_parents,
                    i as int,
                ),
                self.parachain_total_candidates == old(self).parachain_total_candidates,
                self.parachain_stage_gauges == old(self).parachain_stage_gauges,
                self.parachain_stage_histograms == old(self).parachain_stage_histograms,
                self.recurse_parents == old(self).recurse_parents,
                self.recurse_children == old(self).recurse_children,
                self.registry == old(self).registry,
            decreases n - i,
        {
            match self.try_resolve_missing(graph, i) {
                Some(c) => {
                    self.insert_candidate(c);
                },
                None => {},
            }
            i = i + 1;
        }
    }
}

// ---------------------------------------------------------------------------
// Flushing to the exported objects
// ---------------------------------------------------------------------------

/// The values one flush computed from the current cycle's candidate lists and
/// pushed to the exported metric objects.
#[derive(Debug, Clone, PartialEq)]
pub struct MetricsUpdate {
    /// Distinct hashes per stage; what the per-stage gauges were set to.
    pub stage_counts: Vec<usize>,
    /// Distinct hashes across all stages; what the total gauge was set to.
    pub total: usize,
    /// Ingested candidates per stage, duplicates included: how many duration
    /// observations the stage's histogram received.
    pub observations: Vec<usize>,
}

impl Metrics {
    /// Recompute the exported values from the current candidate lists: each
    /// stage's gauge is set to its number of distinct hashes, the total gauge
    /// to the number of distinct hashes across all stages, and every
    /// candidate's duration (microseconds, divided by 1000 for milliseconds)
    /// is recorded as one observation of its stage's histogram — duplicates
    /// are not deduplicated there. The store itself is left unchanged.
    pub fn update_metrics(&mut self) -> (r: MetricsUpdate)
        requires
            old(self).wf(),
        ensures
            *final(self) == *old(self),
            r.stage_counts@.len() == NUM_STAGES,
            r.observations@.len() == NUM_STAGES,
            forall|i: int|
                0 <= i < NUM_STAGES ==> #[trigger] r.stage_counts@[i] == distinct_hashes(
                    lists_view(old(self).candidates@)[i],
                ),
            forall|i: int|
                0 <= i < NUM_STAGES ==> #[trigger] r.observations@[i] == lists_view(
                    old(self).candidates@,
                )[i].len(),
            r.total == distinct_hashes(lists_view(old(self).candidates@).flatten()),
    {
        let ghost lists = lists_view(self.candidates@);
        let mut stage_counts: Vec<usize> = Vec::new();
        let mut observations: Vec<usize> = Vec::new();
        let mut all_hashes: Vec<CandidateHash> = Vec::new();
        assert(lists.take(0) =~= Seq::<Seq<CandidateView>>::empty());
        assert(lists.take(0).flatten() =~= Seq::<CandidateView>::empty());
        assert(all_hashes@.map_values(|a: CandidateHash| a@) =~= hashes_of(
            lists.take(0).flatten(),
        ));
        let mut i: usize = 0;
        while i < NUM_STAGES
            invariant
                0 <= i <= NUM_STAGES,
                *self == *old(self),
                self.wf(),
                lists == lists_view(self.candidates@),
                stage_counts@.len() == i,
                observations@.len() == i,
                forall|k: int|
                    0 <= k < i ==> #[trigger] stage_counts@[k] == distinct_hashes(lists[k]),
                forall|k: int| 0 <= k < i ==> #[trigger] observations@[k] == lists[k].len(),
                all_hashes@.map_values(|a: CandidateHash| a@) == hashes_of(
                    lists.take(i as int).flatten(),
                ),
            decreases NUM_STAGES - i,
        {
            let list = &self.candidates[i];
            let m = list.len();
            let mut c: usize = 0;
            while c < m
                invariant
                    0 <= c <= m,
                    i < NUM_STAGES,
                    self.wf(),
                    m == self.candidates@[i as int]@.len(),
                    list == &self.candidates[i as int],
                decreases m - c,
            {
                crate::prom::histogram_observe_ms(
                    &self.parachain_stage_histograms[i],
                    list[c].duration / 1000,
                );
                c = c + 1;
            }
            let hs = stage_hashes(list);
            let cnt = count_distinct_hashes(&hs);
            self.parachain_stage_gauges[i].set(cnt);
            stage_counts.push(cnt);
            observations.push(m);
            proof {
                assert(lists[i as int] == self.candidates@[i as int]@.map_values(
                    |c2: Candidate| c2@,
                ));
                assert(lists[i as int].len() == m);
            }
            let mut hs_moved = hs;
            let ghost all_before = all_hashes@;
            let ghost hs_view = hs_moved@;
            all_hashes.append(&mut hs_moved);
            proof {
                lists.lemma_take_succ_push(i as int);
                lists.take(i as int).lemma_flatten_push(lists[i as int]);
                assert(lists.take(i as int + 1).flatten() =~= lists.take(i as int).flatten()
                    + lists[i as int]);
                assert(all_hashes@ == all_before + hs_view);
                assert(hs_view.map_values(|a: CandidateHash| a@) == hashes_of(lists[i as int]));
                let f = |a: CandidateHash| a@;
                assert(all_hashes@.map_values(f) =~= all_before.map_values(f)
                    + hs_view.map_values(f));
                assert(hashes_of(lists.take(i as int).flatten() + lists[i as int]) =~= hashes_of(
                    lists.take(i as int).flatten(),
                ) + hashes_of(lists[i as int]));
                assert(all_hashes@.map_values(|a: CandidateHash| a@) =~= hashes_of(
                    lists.take(i as int + 1).flatten(),
                ));
            }
            i = i + 1;
        }
        let total = count_distinct_hashes(&all_hashes);
        self.parachain_total_candidates.set(total);
        proof {
            assert(lists.take(NUM_STAGES as int) =~= lists);
        }
        MetricsUpdate { stage_counts, total, observations }
    }
}

// ---------------------------------------------------------------------------
// One polling cycle
// ---------------------------------------------------------------------------

/// One trace's worth of collection: a malformed trace — an unresolvable parent
/// reference or a cycle — is skipped and leaves the lists unchanged; otherwise
/// the trace's graph is built and every span's resolution ingested in order.
pub open spec fn spec_trace_step(
    lists: Seq<Seq<CandidateView>>,
    lists2: Seq<Seq<CandidateView>>,
    trace: crate::primitives::TraceObject,
    rc: bool,
    rp: bool,
) -> bool {
    if crate::graph::has_missing_parent(trace.spans@) || !crate::graph::acyclic(
        crate::graph::spec_parents(trace.spans@),
    ) {
        lists2 == lists
    } else {
        exists|g: Graph|
            #![trigger g.wf()]
            g.wf() && *g.trace == trace && lists2 == spec_collect(lists, g, rc, rp, g.spec_len())
    }
}

/// The candidate lists `lists2` are what ingesting `traces`, in order, makes
/// of `lists`.
pub open spec fn spec_update_steps(
    lists: Seq<Seq<CandidateView>>,
    lists2: Seq<Seq<CandidateView>>,
    traces: Seq<crate::primitives::TraceObject>,
    rc: bool,
    rp: bool,
) -> bool
    decreases traces.len(),
{
    if traces.len() == 0 {
        lists2 == lists
    } else {
        exists|mid: Seq<Seq<CandidateView>>|
            #![trigger spec_trace_step(lists, mid, traces[0], rc, rp)]
            spec_trace_step(lists, mid, traces[0], rc, rp) && spec_update_steps(
                mid,
                lists2,
                traces.drop_first(),
                rc,
                rp,
            )
    }
}

/// Collection steps compose: one more trace extends the fold by one step.
proof fn lemma_update_steps_extend(
    lists: Seq<Seq<CandidateView>>,
    mid: Seq<Seq<CandidateView>>,
    lists2: Seq<Seq<CandidateView>>,
    traces: Seq<crate::primitives::TraceObject>,
    next: crate::primitives::TraceObject,
    rc: bool,
    rp: bool,
)
    requires
        spec_update_steps(lists, mid, traces, rc, rp),
        spec_trace_step(mid, lists2, next, rc, rp),
    ensures
        spec_update_steps(lists, lists2, traces.push(next), rc, rp),
    decreases traces.len(),
{
    if traces.len() == 0 {
        assert(traces.push(next)[0] == next);
        assert(traces.push(next).drop_first() =~= Seq::<crate::primitives::TraceObject>::empty());
        assert(spec_trace_step(lists, lists2, traces.push(next)[0], rc, rp));
        assert(spec_update_steps(lists2, lists2, traces.push(next).drop_first(), rc, rp));
    } else {
        let m0 = choose|m0: Seq<Seq<CandidateView>>|
            #![trigger spec_trace_step(lists, m0, traces[0], rc, rp)]
            spec_trace_step(lists, m0, traces[0], rc, rp) && spec_update_steps(
                m0,
                mid,
                traces.drop_first(),
                rc,
                rp,
            );
        lemma_update_steps_extend(m0, mid, lists2, traces.drop_first(), next, rc, rp);
        assert(traces.push(next)[0] == traces[0]);
        assert(traces.push(next).drop_first() =~= traces.drop_first().push(next));
        assert(spec_trace_step(lists, m0, traces.push(next)[0], rc, rp));
        assert(spec_update_steps(m0, lists2, traces.push(next).drop_first(), rc, rp));
    }
}

impl Metrics {
    /// Collect candidates from every trace — skipping, non-fatally, a trace
    /// whose parent references are malformed — and flush the exported values,
    /// exactly as [`spec_update_steps`] and [`Metrics::update_metrics`]
    /// describe.
    pub fn update(&mut self, traces: &Vec<crate::primitives::TraceObject>) -> (r: MetricsUpdate)
        requires
            old(self).wf(),
            forall|k: int| 0 <= k < traces@.len() ==> (#[trigger] traces@[k]).wf(),
        ensures
            final(self).wf(),
            spec_update_steps(
                lists_view(old(self).candidates@),
                lists_view(final(self).candidates@),
                traces@,
                old(self).recurse_children,
                old(self).recurse_parents,
            ),
            r.stage_counts@.len() == NUM_STAGES,
            r.observations@.len() == NUM_STAGES,
            forall|i: int|
                0 <= i < NUM_STAGES ==> #[trigger] r.stage_counts@[i] == distinct_hashes(
                    lists_view(final(self).candidates@)[i],
                ),
            forall|i: int|
                0 <= i < NUM_STAGES ==> #[trigger] r.observations@[i] == lists_view(
                    final(self).candidates@,
                )[i].len(),
            r.total == distinct_hashes(lists_view(final(self).candidates@).flatten()),
            final(self).parachain_total_candidates == old(self).parachain_total_candidates,
            final(self).parachain_stage_gauges == old(self).parachain_stage_gauges,
            final(self).parachain_stage_histograms == old(self).parachain_stage_histograms,
            final(self).recurse_parents == old(self).recurse_parents,
            final(self).recurse_children == old(self).recurse_children,
            final(self).registry == old(self).registry,
    {
        let ghost before = lists_view(old(self).candidates@);
        let n = traces.len();
        let mut t: usize = 0;
        assert(spec_update_steps(
            before,
            lists_view(self.candidates@),
            traces@.take(0),
            self.recurse_children,
            self.recurse_parents,
        )) by {
            assert(traces@.take(0).len() == 0);
        };
        while t < n
            invariant
                0 <= t <= n == traces@.len(),
                self.wf(),
                forall|k: int| 0 <= k < traces@.len() ==> (#[trigger] traces@[k]).wf(),
                spec_update_steps(
                    before,
                    lists_view(self.candidates@),
                    traces@.take(t as int),
                    old(self).recurse_children,
                    old(self).recurse_parents,
                ),
                self.parachain_total_candidates == old(self).parachain_total_candidates,
                self.parachain_stage_gauges == old(self).parachain_stage_gauges,
                self.parachain_stage_histograms == old(self).parachain_stage_histograms,
                self.recurse_parents == old(self).recurse_parents,
                self.recurse_children == old(self).recurse_children,
                self.registry == old(self).registry,
            decreases n - t,
        {
            let ghost mid = lists_view(self.candidates@);
            match Graph::new(&traces[t]) {
                Err(_) => {
                    proof {
                        assert(spec_trace_step(
                            mid,
                            lists_view(self.candidates@),
                            traces@[t as int],
                            self.recurse_children,
                            self.recurse_parents,
                        ));
                    }
                },
                Ok(g) => {
                    self.collect_candidates(&g);
                    proof {
                        assert(g.wf() && *g.trace == traces@[t as int] && lists_view(
                            self.candidates@,
                        ) == spec_collect(
                            mid,
                            g,
                            self.recurse_children,
                            self.recurse_parents,
                            g.spec_len(),
                        ));
                        assert(spec_trace_step(
                            mid,
                            lists_view(self.candidates@),
                            traces@[t as int],
                            self.recurse_children,
                            self.recurse_parents,
                        ));
                    }
                },
            }
            proof {
                lemma_update_steps_extend(
                    before,
                    mid,
                    lists_view(self.candidates@),
                    traces@.take(t as int),
                    traces@[t as int],
                    self.recurse_children,
                    self.recurse_parents,
                );
                assert(traces@.take(t as int).push(traces@[t as int]) =~= traces@.take(t + 1));
            }
            t = t + 1;
        }
        assert(traces@.take(n as int) =~= traces@);
        self.update_metrics()
    }
}

// ---------------------------------------------------------------------------
// The daemon
// ---------------------------------------------------------------------------

/// The daemon's two states.
#[derive(Debug, Clone, Copy, PartialEq, Eq, Structural)]
pub enum DaemonState {
    Running,
    Stopped,
}

/// What one turn of the collection loop observed.
#[derive(Debug, Clone, Copy, PartialEq, Eq, Structural)]
pub enum CycleEvent {
    /// An external cancellation request arrived.
    Cancelled,
    /// Fetching traces from the upstream source failed.
    FetchFailed,
    /// Decoding the upstream response failed.
    DecodeFailed,
    /// The cycle ran to completion.
    Collected,
}

/// The daemon's transition: cancellation stops it cleanly; a fetch or decode
/// failure is fatal and stops it with an error; a completed cycle keeps it
/// running; a stopped daemon stays stopped. The flag says whether the stop is
/// an error.
pub fn next_state(state: DaemonState, event: CycleEvent) -> (r: (DaemonState, bool))
    ensures
        state == DaemonState::Stopped ==> r.0 == DaemonState::Stopped && !r.1,
        state == DaemonState::Running && event == CycleEvent::Cancelled ==> r.0
            == DaemonState::Stopped && !r.1,
        state == DaemonState::Running && (event == CycleEvent::FetchFailed || event
            == CycleEvent::DecodeFailed) ==> r.0 == DaemonState::Stopped && r.1,
        state == DaemonState::Running && event == CycleEvent::Collected ==> r.0
            == DaemonState::Running && !r.1,
{
    match state {
        DaemonState::Stopped => (DaemonState::Stopped, false),
        DaemonState::Running => match event {
            CycleEvent::Cancelled => (DaemonState::Stopped, false),
            CycleEvent::FetchFailed => (DaemonState::Stopped, true),
            CycleEvent::DecodeFailed => (DaemonState::Stopped, true),
            CycleEvent::Collected => (DaemonState::Running, false),
        },
    }
}

/// All nine candidate lists, empty.
pub open spec fn empty_lists() -> Seq<Seq<CandidateView>> {
    Seq::new(NUM_STAGES as nat, |i: int| Seq::<CandidateView>::empty())
}

/// The collection daemon: the metrics store together with the configuration
/// the loop around it needs. The loop itself — waiting out the interval,
/// fetching, decoding, watching for cancellation — lives in the binary; each
/// decoded batch of traces is handed to [`PrometheusDaemon::collect_metrics`].
pub struct PrometheusDaemon {
    /// Port the metrics are exposed at.
    pub port: u64,
    /// The upstream API the loop fetches from.
    pub api: crate::api::JaegerApi,
    /// The query configuration.
    pub app: crate::cli::App,
    /// The metrics store.
    pub metrics: Metrics,
}

impl PrometheusDaemon {
    /// Set a daemon up: create and register its metrics store.
    pub fn new(
        daemon: &crate::cli::Daemon,
        api: crate::api::JaegerApi,
        app: crate::cli::App,
    ) -> (r: Result<PrometheusDaemon, MetricsError>)
        ensures
            match r {
                Ok(d) => {
                    &&& d.metrics.wf()
                    &&& d.metrics.lists_empty()
                    &&& d.port == daemon.port
                    &&& d.api == api
                    &&& d.app == app
                    &&& d.metrics.recurse_parents == daemon.recurse_parents
                    &&& d.metrics.recurse_children == daemon.recurse_children
                },
                Err(e) => e == MetricsError::Registration,
            },
    {
        let metrics = match Metrics::new(daemon) {
            Ok(m) => m,
            Err(e) => {
                return Err(e);
            },
        };
        Ok(PrometheusDaemon { port: daemon.port, api, app, metrics })
    }

    /// One collection cycle over decoded traces: reset the candidate lists,
    /// ingest every trace, flush the exported values.
    pub fn collect_metrics(&mut self, traces: &Vec<crate::primitives::TraceObject>) -> (r:
        MetricsUpdate)
        requires
            old(self).metrics.wf(),
            forall|k: int| 0 <= k < traces@.len() ==> (#[trigger] traces@[k]).wf(),
        ensures
            final(self).metrics.wf(),
            spec_update_steps(
                empty_lists(),
                lists_view(final(self).metrics.candidates@),
                traces@,
                old(self).metrics.recurse_children,
                old(self).metrics.recurse_parents,
            ),
            r.stage_counts@.len() == NUM_STAGES,
            r.observations@.len() == NUM_STAGES,
            forall|i: int|
                0 <= i < NUM_STAGES ==> #[trigger] r.stage_counts@[i] == distinct_hashes(
                    lists_view(final(self).metrics.candidates@)[i],
                ),
            forall|i: int|
                0 <= i < NUM_STAGES ==> #[trigger] r.observations@[i] == lists_view(
                    final(self).metrics.candidates@,
                )[i].len(),
            r.total == distinct_hashes(lists_view(final(self).metrics.candidates@).flatten()),
            final(self).port == old(self).port,
            final(self).api == old(self).api,
            final(self).app == old(self).app,
            final(self).metrics.recurse_parents == old(self).metrics.recurse_parents,
            final(self).metrics.recurse_children == old(self).metrics.recurse_children,
            final(self).metrics.registry == old(self).metrics.registry,
    {
        self.metrics.clear();
        proof {
            assert(lists_view(self.metrics.candidates@) =~~= empty_lists());
        }
        self.metrics.update(traces)
    }
}

// ---------------------------------------------------------------------------
// Resolution and deduplication laws
// ---------------------------------------------------------------------------

/// Resolving a span that already carries both a hash and a stage never
/// triggers a traversal: the result is the one resolution with both fallbacks
/// disabled yields, whatever the fallback switches say.
pub proof fn lemma_resolver_fast_path(g: Graph<'_>, i: int, rc: bool, rp: bool)
    requires
        g.wf(),
        0 <= i < g.spec_len(),
        spec_hash_of_span(g.trace.spans@[i]) is Some,
        spec_stage_of_span(g.trace.spans@[i]) is Some,
    ensures
        spec_resolve(g, i, rc, rp) == spec_resolve(g, i, false, false),
{
}

/// A walk over spans none of which supplies a hash finds none.
proof fn lemma_first_hash_none(spans: Seq<Span>, order: Seq<int>)
    requires
        forall|k: int|
            0 <= k < order.len() ==> spec_hash_of_span(spans[#[trigger] order[k]]) is None,
    ensures
        spec_first_hash(spans, order) is None,
    decreases order.len(),
{
    if order.len() > 0 {
        assert(forall|k: int|
            0 <= k < order.drop_first().len() ==> order.drop_first()[k] == order[k + 1]);
        lemma_first_hash_none(spans, order.drop_first());
    }
}

/// A depth-first walk never visits more nodes than its budget.
proof fn lemma_bounded_dfs_len(g: Graph<'_>, stack: Seq<int>, budget: nat)
    ensures
        g.bounded_dfs(stack, budget).len() <= budget,
    decreases budget,
{
    if budget > 0 && stack.len() > 0 {
        lemma_bounded_dfs_len(
            g,
            g.children_at(stack[0]) + stack.drop_first(),
            (budget - 1) as nat,
        );
    }
}

/// The traversal bound holds: both fallback walks visit at most
/// [`MAX_RECURSION_DEPTH`] nodes, and when the span itself has no hash and no
/// visited node supplies one — for instance on a chain whose only tagged span
/// lies beyond the bound — the span resolves to nothing rather than walking
/// further.
pub proof fn lemma_resolver_bounded(g: Graph<'_>, i: int, rc: bool, rp: bool)
    requires
        g.wf(),
        0 <= i < g.spec_len(),
        spec_hash_of_span(g.trace.spans@[i]) is None,
        forall|k: int|
            0 <= k < spec_desc_order(g, i).len() ==> spec_hash_of_span(
                g.trace.spans@[#[trigger] spec_desc_order(g, i)[k]],
            ) is None,
        forall|k: int|
            0 <= k < spec_anc_order(g, i).len() ==> spec_hash_of_span(
                g.trace.spans@[#[trigger] spec_anc_order(g, i)[k]],
            ) is None,
    ensures
        spec_desc_order(g, i).len() <= MAX_RECURSION_DEPTH,
        spec_anc_order(g, i).len() <= MAX_RECURSION_DEPTH,
        spec_resolve(g, i, rc, rp) is None,
{
    lemma_bounded_dfs_len(g, g.children_at(i), MAX_RECURSION_DEPTH as nat);
    lemma_first_hash_none(g.trace.spans@, spec_desc_order(g, i));
    lemma_first_hash_none(g.trace.spans@, spec_anc_order(g, i));
}

/// Ingesting two candidates with the same hash into the same stage of an
/// empty store leaves that stage with one distinct hash, not two.
pub proof fn lemma_dedup_same_hash(c1: CandidateView, c2: CandidateView)
    requires
        c1.hash == c2.hash,
        c1.stage == c2.stage,
    ensures
        distinct_hashes(
            spec_insert_candidate(spec_insert_candidate(empty_lists(), c1), c2)[
                c1.stage.spec_index()],
        ) == 1,
{
    broadcast use vstd::set::group_set_axioms;

    let idx = c1.stage.spec_index();
    let lists1 = spec_insert_candidate(empty_lists(), c1);
    let lists2 = spec_insert_candidate(lists1, c2);
    assert(lists2[idx] =~= seq![c1, c2]);
    let hs = hashes_of(lists2[idx]);
    assert(hs =~= seq![c1.hash, c2.hash]);
    assert(hs.to_set() =~= Set::empty().insert(c1.hash)) by {
        assert forall|x: Seq<u8>| hs.to_set().contains(x) implies Set::empty().insert(
            c1.hash,
        ).contains(x) by {
            let k = choose|k: int| 0 <= k < hs.len() && #[trigger] hs[k] == x;
        };
        assert(hs[0] == c1.hash);
        assert(hs.contains(c1.hash));
    };
    assert(Set::<Seq<u8>>::empty().insert(c1.hash).len() == 1);
}

/// After a reset and before any ingestion every count a flush computes is
/// zero: each stage's distinct-hash count and the total.
pub proof fn lemma_flush_after_reset(m: Metrics)
    requires
        m.wf(),
        m.lists_empty(),
    ensures
        forall|i: int|
            0 <= i < NUM_STAGES ==> #[trigger] distinct_hashes(lists_view(m.candidates@)[i]) == 0,
        distinct_hashes(lists_view(m.candidates@).flatten()) == 0,
{
    broadcast use vstd::set::group_set_axioms;

    let lists = lists_view(m.candidates@);
    assert forall|i: int| 0 <= i < NUM_STAGES implies #[trigger] distinct_hashes(lists[i])
        == 0 by {
        assert(hashes_of(lists[i]) =~= Seq::<Seq<u8>>::empty());
        assert(hashes_of(lists[i]).to_set() =~= Set::<Seq<u8>>::empty());
    };
    assert(lists =~~= empty_lists());
    lemma_flatten_all_empty(lists);
    assert(hashes_of(lists.flatten()) =~= Seq::<Seq<u8>>::empty());
    assert(hashes_of(lists.flatten()).to_set() =~= Set::<Seq<u8>>::empty());
}

/// Flattening a sequence of empty sequences yields the empty sequence.
proof fn lemma_flatten_all_empty(lists: Seq<Seq<CandidateView>>)
    requires
        forall|i: int| 0 <= i < lists.len() ==> #[trigger] lists[i].len() == 0,
    ensures
        lists.flatten().len() == 0,
    decreases lists.len(),
{
    if lists.len() > 0 {
        assert(forall|i: int|
            0 <= i < lists.drop_first().len() ==> #[trigger] lists.drop_first()[i] == lists[i
                + 1]);
        lemma_flatten_all_empty(lists.drop_first());
        assert(lists.flatten() == lists[0] + lists.drop_first().flatten());
    }
}

} // verus!
