use dot_jaeger::daemon::{
    extract_hash_from_span, extract_stage_from_span, resolve, Stage, MAX_RECURSION_DEPTH,
};
use dot_jaeger::graph::Graph;
use dot_jaeger::primitives::{parse_u64, Reference, Span, Tag, TagValue, TraceObject};

const TRACE_ID: &str = "6ga7nenJ21rhDy6Fwzjwz7KZQ5Jrii9";

fn tag(key: &str, value: &str) -> Tag {
    Tag {
        key: key.to_string(),
        ty: "string".to_string(),
        value: TagValue::String(value.to_string()),
    }
}

fn make_span(span_id: &str, parent: Option<&str>, tags: Vec<Tag>) -> Span {
    let references = match parent {
        Some(p) => vec![Reference {
            ref_type: "CHILD_OF".to_string(),
            trace_id: TRACE_ID.to_string(),
            span_id: p.to_string(),
        }],
        None => vec![],
    };
    Span {
        trace_id: TRACE_ID.to_string(),
        span_id: span_id.to_string(),
        flags: None,
        operation_name: "testop".to_string(),
        references,
        start_time: 1616995411000000,
        duration: 150,
        tags,
        process_id: "p1".to_string(),
        warnings: None,
    }
}

fn hash_value(byte: &str) -> String {
    format!("0x{}", byte.repeat(32))
}

#[test]
fn resolves_across_the_family() {
    // parent carries only a stage, child-0 only a hash, child-1 nothing
    let spans = vec![
        make_span("parent", None, vec![tag("candidate-stage", "4")]),
        make_span(
            "child-0",
            Some("parent"),
            vec![tag("candidate-hash", &hash_value("aa"))],
        ),
        make_span("child-1", Some("child-0"), vec![]),
    ];
    let traces = TraceObject::new(TRACE_ID.to_string(), spans, vec![], None);
    let graph = Graph::new(&traces).unwrap();

    // child-0: its own hash, the stage pulled from its parent
    let c0 = resolve(&graph, 1, true, true).unwrap();
    assert_eq!(c0.hash, [0xAA; 32]);
    assert_eq!(c0.stage, Stage::PoVDistribution);

    // child-1: both pulled from its ancestors
    let c1 = resolve(&graph, 2, true, true).unwrap();
    assert_eq!(c1.hash, [0xAA; 32]);
    assert_eq!(c1.stage, Stage::PoVDistribution);

    // parent: the hash supplied by its descendant child-0
    let p = resolve(&graph, 0, true, true).unwrap();
    assert_eq!(p.hash, [0xAA; 32]);
    assert_eq!(p.stage, Stage::PoVDistribution);

    // parent without the descendant fallback: no hash anywhere above it
    assert!(resolve(&graph, 0, false, true).is_none());
}

#[test]
fn fast_path_ignores_the_fallback_switches() {
    let spans = vec![make_span(
        "only",
        None,
        vec![
            tag("candidate-hash", &hash_value("01")),
            tag("candidate-stage", "2"),
        ],
    )];
    let traces = TraceObject::new(TRACE_ID.to_string(), spans, vec![], None);
    let graph = Graph::new(&traces).unwrap();
    let with_fallbacks = resolve(&graph, 0, true, true).unwrap();
    let without = resolve(&graph, 0, false, false).unwrap();
    assert_eq!(with_fallbacks, without);
    assert_eq!(with_fallbacks.hash, [0x01; 32]);
    assert_eq!(with_fallbacks.stage, Stage::CandidateBacking);
}

#[test]
fn traversal_stops_at_the_recursion_bound() {
    // a chain deeper than the bound; the only hash sits on its far end
    let depth = MAX_RECURSION_DEPTH + 2;
    let mut spans = vec![make_span("s0", None, vec![])];
    for k in 1..depth {
        let id = format!("s{}", k);
        let parent = format!("s{}", k - 1);
        let tags = if k == depth - 1 {
            vec![tag("candidate-hash", &hash_value("bb"))]
        } else {
            vec![]
        };
        spans.push(make_span(&id, Some(&parent), tags));
    }
    let traces = TraceObject::new(TRACE_ID.to_string(), spans, vec![], None);
    let graph = Graph::new(&traces).unwrap();

    // from the root, the walk gives up before reaching the tagged span
    assert!(resolve(&graph, 0, true, false).is_none());
    // from the far end's parent, one step suffices
    let near = resolve(&graph, depth - 2, true, false).unwrap();
    assert_eq!(near.hash, [0xBB; 32]);

    // the ancestor walk is bounded the same way
    assert!(resolve(&graph, 0, false, true).is_none());
    let tail = resolve(&graph, depth - 1, false, true).unwrap();
    assert_eq!(tail.hash, [0xBB; 32]);
}

#[test]
fn hash_extraction_decodes_strips_and_rejects() {
    // decoded bytes follow the hex digits
    let mut value = String::from("0x01");
    value.push_str(&"ab".repeat(31));
    let span = make_span("s", None, vec![tag("candidate-hash", &value)]);
    let hash = extract_hash_from_span(&span).unwrap();
    assert_eq!(hash[0], 0x01);
    assert_eq!(hash[1], 0xAB);
    assert_eq!(hash[31], 0xAB);

    // an all-zero hash stands for "absent"
    let zero = make_span("s", None, vec![tag("candidate-hash", &hash_value("00"))]);
    assert!(extract_hash_from_span(&zero).is_none());

    // not hex after the prefix
    let bad = make_span("s", None, vec![tag("candidate-hash", &hash_value("zz"))]);
    assert!(extract_hash_from_span(&bad).is_none());

    // too short to strip a prefix from
    let short = make_span("s", None, vec![tag("candidate-hash", "0")]);
    assert!(extract_hash_from_span(&short).is_none());

    // wrong length
    let odd = make_span("s", None, vec![tag("candidate-hash", "0xabc")]);
    assert!(extract_hash_from_span(&odd).is_none());

    // no tag at all
    let untagged = make_span("s", None, vec![]);
    assert!(extract_hash_from_span(&untagged).is_none());
}

#[test]
fn stage_extraction_parses_and_rejects() {
    let four = make_span("s", None, vec![tag("candidate-stage", "4")]);
    assert_eq!(extract_stage_from_span(&four), Some(Stage::PoVDistribution));

    let out_of_range = make_span("s", None, vec![tag("candidate-stage", "9")]);
    assert_eq!(extract_stage_from_span(&out_of_range), None);

    let garbage = make_span("s", None, vec![tag("candidate-stage", "many")]);
    assert_eq!(extract_stage_from_span(&garbage), None);

    let missing = make_span("s", None, vec![]);
    assert_eq!(extract_stage_from_span(&missing), None);
}

#[test]
fn decimal_parsing_is_exact() {
    assert_eq!(parse_u64("0"), Some(0));
    assert_eq!(parse_u64("007"), Some(7));
    assert_eq!(parse_u64("9186"), Some(9186));
    assert_eq!(parse_u64("18446744073709551615"), Some(u64::MAX));
    assert_eq!(parse_u64("18446744073709551616"), None);
    assert_eq!(parse_u64(""), None);
    assert_eq!(parse_u64("1a"), None);
    assert_eq!(parse_u64("-1"), None);
    assert_eq!(parse_u64(" 1"), None);
}

#[test]
fn stages_map_to_and_from_their_numbers() {
    assert_eq!(Stage::from_str("0").unwrap(), Stage::NoStage);
    assert_eq!(Stage::from_str("1").unwrap(), Stage::CandidateSelection);
    assert_eq!(Stage::from_str("4").unwrap(), Stage::PoVDistribution);
    assert_eq!(Stage::from_str("8").unwrap(), Stage::ApprovalChecking);
    assert!(Stage::from_str("9").is_err());
    assert!(Stage::from_str("").is_err());
    assert!(Stage::from_str("four").is_err());
    assert_eq!(Stage::try_from(2).unwrap(), Stage::CandidateBacking);
    assert!(Stage::try_from(100).is_err());
    for n in 0..9 {
        assert_eq!(Stage::try_from(n).unwrap().as_index(), n);
    }
}
