use dot_jaeger::api::{build_parameters, endpoint, Endpoint, JaegerApi, ParamBuilder};
use dot_jaeger::cli::{default_port, App, Daemon};
use dot_jaeger::daemon::{
    next_state, Candidate, CycleEvent, DaemonState, Metrics, PrometheusDaemon, Stage,
};
use dot_jaeger::primitives::{
    u64_to_string, RpcResponse, Reference, Span, Tag, TagValue, TraceObject,
};

const TRACE_ID: &str = "6ga7nenJ21rhDy6Fwzjwz7KZQ5Jrii9";

fn daemon_config() -> Daemon {
    Daemon { frequency: None, port: 9186, recurse_parents: true, recurse_children: true }
}

/// The registry's current state in the text exposition format, as a scraper
/// would see it.
fn scrape(metrics: &Metrics) -> String {
    prometheus::TextEncoder::new().encode_to_string(&metrics.registry().gather()).unwrap()
}

/// The value of the gauge named `name` in a scrape.
fn gauge_value(exposition: &str, name: &str) -> f64 {
    let line = exposition
        .lines()
        .find(|l| l.starts_with(name) && l[name.len()..].starts_with(' '))
        .unwrap_or_else(|| panic!("no sample for {}", name));
    line[name.len() + 1..].trim().parse().unwrap()
}

fn candidate(hash_byte: u8, stage: Stage, duration: u64) -> Candidate {
    Candidate {
        hash: [hash_byte; 32],
        operation: "testop".to_string(),
        start_time: 1616995411000000,
        duration,
        stage,
    }
}

fn tag(key: &str, value: &str) -> Tag {
    Tag {
        key: key.to_string(),
        ty: "string".to_string(),
        value: TagValue::String(value.to_string()),
    }
}

fn make_span(span_id: &str, parent: Option<&str>, tags: Vec<Tag>) -> Span {
    let references = match parent {
        Some(p) => vec![Reference {
            ref_type: "CHILD_OF".to_string(),
            trace_id: TRACE_ID.to_string(),
            span_id: p.to_string(),
        }],
        None => vec![],
    };
    Span {
        trace_id: TRACE_ID.to_string(),
        span_id: span_id.to_string(),
        flags: None,
        operation_name: "testop".to_string(),
        references,
        start_time: 1616995411000000,
        duration: 150,
        tags,
        process_id: "p1".to_string(),
        warnings: None,
    }
}

#[test]
fn duplicate_hashes_count_once_per_stage() {
    let mut metrics = Metrics::new(&daemon_config()).unwrap();
    metrics.insert_candidate(candidate(0xAA, Stage::CandidateBacking, 1000));
    metrics.insert_candidate(candidate(0xAA, Stage::CandidateBacking, 2000));
    let update = metrics.update_metrics();
    assert_eq!(update.stage_counts[2], 1);
    assert_eq!(update.total, 1);
    let exposition = scrape(&metrics);
    assert_eq!(gauge_value(&exposition, "stage_2_candidates"), 1.0);
    assert_eq!(gauge_value(&exposition, "parachain_total_candidates"), 1.0);
}

#[test]
fn histograms_observe_every_ingested_candidate() {
    let mut metrics = Metrics::new(&daemon_config()).unwrap();
    metrics.insert_candidate(candidate(0xAA, Stage::CandidateBacking, 1_000_000));
    metrics.insert_candidate(candidate(0xAA, Stage::CandidateBacking, 2_000_000));
    metrics.insert_candidate(candidate(0xAA, Stage::CandidateBacking, 3_000_000));
    let update = metrics.update_metrics();
    // deduplicated for the gauge, not for the histogram
    assert_eq!(update.stage_counts[2], 1);
    assert_eq!(update.observations[2], 3);
    assert_eq!(metrics.stage_histogram(2).get_sample_count(), 3);
    // microseconds become milliseconds
    assert_eq!(metrics.stage_histogram(2).get_sample_sum(), 6000.0);
}

#[test]
fn distinct_hashes_count_separately() {
    let mut metrics = Metrics::new(&daemon_config()).unwrap();
    metrics.insert_candidate(candidate(0xAA, Stage::CandidateBacking, 1000));
    metrics.insert_candidate(candidate(0xBB, Stage::CandidateBacking, 1000));
    metrics.insert_candidate(candidate(0xAA, Stage::ApprovalChecking, 1000));
    let update = metrics.update_metrics();
    assert_eq!(update.stage_counts[2], 2);
    assert_eq!(update.stage_counts[8], 1);
    // the same hash in two stages is one candidate in total
    assert_eq!(update.total, 2);
}

#[test]
fn reset_then_flush_zeroes_every_gauge() {
    let mut metrics = Metrics::new(&daemon_config()).unwrap();
    metrics.insert_candidate(candidate(0xAA, Stage::CandidateBacking, 1000));
    let first = metrics.update_metrics();
    assert_eq!(first.stage_counts[2], 1);
    assert_eq!(gauge_value(&scrape(&metrics), "stage_2_candidates"), 1.0);

    metrics.clear();
    let update = metrics.update_metrics();
    assert_eq!(update.total, 0);
    let exposition = scrape(&metrics);
    for i in 0..9 {
        assert_eq!(update.stage_counts[i], 0);
        assert_eq!(update.observations[i], 0);
        assert_eq!(gauge_value(&exposition, &format!("stage_{}_candidates", i)), 0.0);
    }
    assert_eq!(gauge_value(&exposition, "parachain_total_candidates"), 0.0);
}

#[test]
fn a_full_cycle_collects_resolves_and_flushes() {
    let mut hash_value = String::from("0x");
    hash_value.push_str(&"aa".repeat(32));
    let spans = vec![
        make_span("parent", None, vec![tag("candidate-stage", "4")]),
        make_span("child-0", Some("parent"), vec![tag("candidate-hash", &hash_value)]),
        make_span("child-1", Some("child-0"), vec![]),
    ];
    let trace = TraceObject::new(TRACE_ID.to_string(), spans, vec![], None);
    let api = JaegerApi::new("http://localhost:16686");
    let app = App {
        service: None,
        url: "http://localhost:16686".to_string(),
        limit: None,
        pretty_print: false,
        lookback: None,
    };
    let mut daemon = PrometheusDaemon::new(&daemon_config(), api, app).unwrap();
    let update = daemon.collect_metrics(&vec![trace]);
    // parent, child-0 and child-1 all resolve to the one candidate on stage 4
    assert_eq!(update.stage_counts[4], 1);
    assert_eq!(update.observations[4], 3);
    assert_eq!(update.total, 1);
    assert_eq!(gauge_value(&scrape(&daemon.metrics), "stage_4_candidates"), 1.0);
    assert_eq!(daemon.metrics.stage_histogram(4).get_sample_count(), 3);
}

#[test]
fn a_malformed_trace_is_skipped_not_fatal() {
    let good = TraceObject::new(
        TRACE_ID.to_string(),
        vec![make_span("parent", None, vec![tag("candidate-stage", "4")])],
        vec![],
        None,
    );
    let mut hash_value = String::from("0x");
    hash_value.push_str(&"cc".repeat(32));
    let orphan = TraceObject::new(
        "other".to_string(),
        vec![make_span("lost", Some("gone"), vec![tag("candidate-hash", &hash_value)])],
        vec![],
        None,
    );
    let tagged = TraceObject::new(
        "third".to_string(),
        vec![make_span("solo", None, vec![tag("candidate-hash", &hash_value)])],
        vec![],
        None,
    );
    let mut metrics = Metrics::new(&daemon_config()).unwrap();
    let update = metrics.update(&vec![good, orphan, tagged]);
    // the orphaned trace contributed nothing; the tagged solo span did
    assert_eq!(update.total, 1);
    assert_eq!(update.stage_counts[0], 1);
}

#[test]
fn inserting_a_span_reads_its_own_tags_only() {
    let mut hash_value = String::from("0x");
    hash_value.push_str(&"dd".repeat(32));
    let tagged = make_span(
        "tagged",
        None,
        vec![tag("candidate-hash", &hash_value), tag("candidate-stage", "3")],
    );
    let hashless = make_span("hashless", None, vec![tag("candidate-stage", "3")]);

    let mut metrics = Metrics::new(&daemon_config()).unwrap();
    metrics.insert(&tagged);
    metrics.insert(&hashless);
    let update = metrics.update_metrics();
    // only the span carrying a hash yielded a candidate
    assert_eq!(update.stage_counts[3], 1);
    assert_eq!(update.observations[3], 1);
    assert_eq!(update.total, 1);

    // a candidate built from a span keeps the span's fields
    let c = Candidate::from_span(&tagged).unwrap();
    assert_eq!(c.hash, [0xDD; 32]);
    assert_eq!(c.stage, Stage::StatementDistribution);
    assert_eq!(c.operation, "testop");
    assert_eq!(c.duration, 150);
    assert!(Candidate::from_span(&hashless).is_none());
}

#[test]
fn daemon_transitions_follow_the_events() {
    assert_eq!(next_state(DaemonState::Running, CycleEvent::Collected), (DaemonState::Running, false));
    assert_eq!(next_state(DaemonState::Running, CycleEvent::Cancelled), (DaemonState::Stopped, false));
    assert_eq!(next_state(DaemonState::Running, CycleEvent::FetchFailed), (DaemonState::Stopped, true));
    assert_eq!(next_state(DaemonState::Running, CycleEvent::DecodeFailed), (DaemonState::Stopped, true));
    assert_eq!(next_state(DaemonState::Stopped, CycleEvent::Collected), (DaemonState::Stopped, false));
}

#[test]
fn histogram_buckets_are_linear_quarter_seconds() {
    let buckets = dot_jaeger::daemon::histogram_buckets();
    assert_eq!(buckets.len(), 84);
    assert_eq!(buckets[0], 250);
    assert_eq!(buckets[1], 500);
    assert_eq!(buckets[83], 21000);
}

#[test]
fn tag_values_render_as_text() {
    assert_eq!(TagValue::String("proto".to_string()).to_string(), "proto");
    assert_eq!(TagValue::Boolean(true).to_string(), "true");
    assert_eq!(TagValue::Boolean(false).to_string(), "false");
    assert_eq!(TagValue::Number(0).to_string(), "0");
    assert_eq!(TagValue::Number(9186).to_string(), "9186");
    assert_eq!(u64_to_string(18446744073709551615), "18446744073709551615");
    let t = tag("candidate-stage", "4");
    assert_eq!(t.value(), "4");
}

#[test]
fn parameters_build_in_order() {
    let pairs = ParamBuilder::new()
        .service(Some("polkadot".to_string()))
        .limit(Some(10))
        .lookback(Some("1h".to_string()))
        .build();
    assert_eq!(
        pairs,
        vec![
            ("service".to_string(), "polkadot".to_string()),
            ("limit".to_string(), "10".to_string()),
            ("lookback".to_string(), "1h".to_string()),
        ]
    );
    let none = ParamBuilder::new().build();
    assert!(none.is_empty());

    let app = App {
        service: Some("polkadot".to_string()),
        url: "http://localhost:16686".to_string(),
        limit: None,
        pretty_print: false,
        lookback: None,
    };
    let from_app = build_parameters(&app);
    assert_eq!(from_app, vec![("service".to_string(), "polkadot".to_string())]);
}

#[test]
fn endpoints_join_onto_the_base_url() {
    assert_eq!(endpoint("http://localhost:16686", Endpoint::Traces), "http://localhost:16686/api/traces");
    assert_eq!(endpoint("http://localhost:16686", Endpoint::Services), "http://localhost:16686/api/services");
    assert_eq!(default_port(), 9186);
    let api = JaegerApi::new("http://localhost:16686");
    assert_eq!(api.url, "http://localhost:16686");
}

#[test]
fn the_rpc_envelope_unwraps_its_payload() {
    let response: RpcResponse<u64> = RpcResponse {
        data: vec![1, 2, 3],
        total: 3,
        limit: 0,
        offset: 0,
        errors: None,
    };
    assert_eq!(response.consume(), vec![1, 2, 3]);
}
