use dot_jaeger::graph::{Graph, GraphError};
use dot_jaeger::primitives::{Reference, Span, Tag, TagValue, TraceObject};

const TRACE_ID: &str = "6ga7nenJ21rhDy6Fwzjwz7KZQ5Jrii9";

fn stage_tag(value: &str) -> Tag {
    Tag {
        key: "candidate-stage".to_string(),
        ty: "string".to_string(),
        value: TagValue::String(value.to_string()),
    }
}

fn make_span(span_id: &str, parent: Option<&str>, tags: Vec<Tag>) -> Span {
    let references = match parent {
        Some(p) => vec![Reference {
            ref_type: "CHILD_OF".to_string(),
            trace_id: TRACE_ID.to_string(),
            span_id: p.to_string(),
        }],
        None => vec![],
    };
    Span {
        trace_id: TRACE_ID.to_string(),
        span_id: span_id.to_string(),
        flags: None,
        operation_name: "testop".to_string(),
        references,
        start_time: 1616995411000000,
        duration: 150,
        tags,
        process_id: "p1".to_string(),
        warnings: None,
    }
}

/// The four-span chain: parent <- child-0 <- child-1 <- child-2, each span
/// carrying a stage tag of "4".
fn chain_trace() -> TraceObject {
    let spans = vec![
        make_span("parent", None, vec![stage_tag("4")]),
        make_span("child-0", Some("parent"), vec![stage_tag("4")]),
        make_span("child-1", Some("child-0"), vec![stage_tag("4")]),
        make_span("child-2", Some("child-1"), vec![stage_tag("4")]),
    ];
    TraceObject::new(TRACE_ID.to_string(), spans, vec![], None)
}

#[test]
fn should_iter_parents() {
    let traces = chain_trace();
    let graph = Graph::new(&traces).unwrap();

    let chain = graph.parents("child-2").unwrap();
    assert_eq!(Some("child-1"), chain.get(0).map(|s| s.span_id.as_str()));
    assert_eq!(Some("child-0"), chain.get(1).map(|s| s.span_id.as_str()));
    assert_eq!(Some("parent"), chain.get(2).map(|s| s.span_id.as_str()));
    assert_eq!(None, chain.get(3).map(|s| s.span_id.as_str()));
}

#[test]
fn should_iter_children() {
    let traces = chain_trace();
    let graph = Graph::new(&traces).unwrap();

    let order = graph.search("parent").unwrap();
    assert_eq!(Some("parent"), order.get(0).map(|s| s.span_id.as_str()));
    assert_eq!(Some("child-0"), order.get(1).map(|s| s.span_id.as_str()));
    assert_eq!(Some("child-1"), order.get(2).map(|s| s.span_id.as_str()));
    assert_eq!(Some("child-2"), order.get(3).map(|s| s.span_id.as_str()));
}

#[test]
fn should_find_parents() {
    let traces = chain_trace();
    assert_eq!(traces.get_parent("child-0").unwrap().span_id, "parent");
    assert_eq!(traces.get_parent("child-1").unwrap().span_id, "child-0");
}

#[test]
fn node_and_edge_counts_match_the_trace() {
    // four spans, one root: three edges
    let traces = chain_trace();
    let graph = Graph::new(&traces).unwrap();
    assert_eq!(graph.parent.len(), 4);
    let edges = graph.parent.iter().filter(|p| p.is_some()).count();
    let roots = graph.parent.iter().filter(|p| p.is_none()).count();
    assert_eq!(edges, 3);
    assert_eq!(roots, 1);
    assert_eq!(edges, graph.parent.len() - roots);
}

#[test]
fn unknown_parent_reference_fails_the_build() {
    let spans = vec![
        make_span("parent", None, vec![]),
        make_span("child-0", Some("no-such-span"), vec![]),
    ];
    let traces = TraceObject::new(TRACE_ID.to_string(), spans, vec![], None);
    assert_eq!(Graph::new(&traces).unwrap_err(), GraphError::UnknownParent);
}

#[test]
fn cyclic_parent_references_fail_the_build() {
    let spans = vec![
        make_span("a", Some("b"), vec![]),
        make_span("b", Some("a"), vec![]),
    ];
    let traces = TraceObject::new(TRACE_ID.to_string(), spans, vec![], None);
    assert_eq!(Graph::new(&traces).unwrap_err(), GraphError::Cycle);
}

#[test]
fn walking_from_an_unknown_span_is_reported() {
    let traces = chain_trace();
    let graph = Graph::new(&traces).unwrap();
    assert_eq!(graph.parents("nope").unwrap_err(), GraphError::SpanNotFound);
    assert_eq!(graph.search("nope").unwrap_err(), GraphError::SpanNotFound);
}

#[test]
fn later_span_with_the_same_id_replaces_the_earlier() {
    let mut first = make_span("dup", None, vec![]);
    first.operation_name = "first".to_string();
    let mut second = make_span("dup", None, vec![]);
    second.operation_name = "second".to_string();
    let traces = TraceObject::new(TRACE_ID.to_string(), vec![first, second], vec![], None);
    assert_eq!(traces.spans.len(), 1);
    assert_eq!(traces.get("dup").unwrap().operation_name, "second");
}

#[test]
fn branching_children_are_visited_depth_first_in_span_order() {
    // root with children a and b; a has child a1
    let spans = vec![
        make_span("root", None, vec![]),
        make_span("a", Some("root"), vec![]),
        make_span("b", Some("root"), vec![]),
        make_span("a1", Some("a"), vec![]),
    ];
    let traces = TraceObject::new(TRACE_ID.to_string(), spans, vec![], None);
    let graph = Graph::new(&traces).unwrap();
    let order: Vec<&str> = graph.search("root").unwrap().iter().map(|s| s.span_id.as_str()).collect();
    assert_eq!(order, vec!["root", "a", "a1", "b"]);
}
