//! A per-trace span forest: each span has at most one parent edge, children
//! keep the order the spans were decoded in, and every node carries its depth,
//! which certifies that the parent references are free of cycles.

use vstd::prelude::*;

use crate::primitives::{spec_parent_span_id, Span, TraceObject};

verus! {

/// How building or walking a graph can fail.
#[derive(Debug, Clone, Copy, PartialEq, Eq, Structural)]
pub enum GraphError {
    /// A span's parent reference names a span id absent from the trace.
    UnknownParent,
    /// The trace's parent references do not form a forest.
    Cycle,
    /// A walk was asked to start from a span id absent from the trace.
    SpanNotFound,
}

// ---------------------------------------------------------------------------
// Parent references as indices
// ---------------------------------------------------------------------------

/// The index of the first span of `spans` whose id reads `id`, if any.
pub open spec fn spec_span_index(spans: Seq<Span>, id: Seq<char>) -> Option<int>
    decreases spans.len(),
{
    if spans.len() == 0 {
        None
    } else if spans[0].span_id@ == id {
        Some(0)
    } else {
        match spec_span_index(spans.drop_first(), id) {
            Some(k) => Some(k + 1),
            None => None,
        }
    }
}

/// The index of span `i`'s parent: the span its first `CHILD_OF` reference
/// names, when present in `spans`.
pub open spec fn spec_parent_index(spans: Seq<Span>, i: int) -> Option<int> {
    match spec_parent_span_id(spans[i].references@) {
        None => None,
        Some(pid) => spec_span_index(spans, pid),
    }
}

/// Some span carries a parent reference that no span of the trace answers to.
pub open spec fn has_missing_parent(spans: Seq<Span>) -> bool {
    exists|i: int|
        0 <= i < spans.len() && spec_parent_span_id(spans[i].references@) is Some
            && spec_span_index(spans, spec_parent_span_id(spans[i].references@).unwrap()) is None
}

/// Following parent pointers from `i` hits a root within `fuel` steps.
pub open spec fn reaches_root(parents: Seq<Option<int>>, i: int, fuel: nat) -> bool
    decreases fuel,
{
    if !(0 <= i < parents.len()) {
        false
    } else {
        match parents[i] {
            None => true,
            Some(p) => fuel > 0 && reaches_root(parents, p, (fuel - 1) as nat),
        }
    }
}

/// Every node's parent chain terminates: the references form a forest.
pub open spec fn acyclic(parents: Seq<Option<int>>) -> bool {
    forall|i: int| 0 <= i < parents.len() ==> reaches_root(parents, i, parents.len() as nat)
}

/// The parent indices a span list denotes.
pub open spec fn spec_parents(spans: Seq<Span>) -> Seq<Option<int>> {
    Seq::new(spans.len(), |i: int| spec_parent_index(spans, i))
}

/// Widen executable parent indices for use with the reachability predicates.
pub open spec fn lift_parents(parent: Seq<Option<usize>>) -> Seq<Option<int>> {
    Seq::new(
        parent.len(),
        |i: int|
            match parent[i] {
                Some(u) => Some(u as int),
                None => None,
            },
    )
}

/// The first `budget` entries of `s`, or all of it if it is shorter.
pub open spec fn seq_prefix(s: Seq<int>, budget: nat) -> Seq<int> {
    if s.len() <= budget {
        s
    } else {
        s.take(budget as int)
    }
}

/// Larger fuel never loses root reachability.
proof fn lemma_reaches_root_mono(parents: Seq<Option<int>>, i: int, f1: nat, f2: nat)
    requires
        f1 <= f2,
        reaches_root(parents, i, f1),
    ensures
        reaches_root(parents, i, f2),
    decreases f1,
{
    if 0 <= i < parents.len() {
        match parents[i] {
            None => {},
            Some(p) => {
                lemma_reaches_root_mono(parents, p, (f1 - 1) as nat, (f2 - 1) as nat);
            },
        }
    }
}

/// A consistent depth labelling certifies root reachability in `depth[i]` steps.
proof fn lemma_depth_reaches_root(parents: Seq<Option<int>>, depth: Seq<usize>, i: int)
    requires
        parents.len() == depth.len(),
        0 <= i < parents.len(),
        forall|k: int|
            0 <= k < parents.len() ==> match #[trigger] parents[k] {
                None => depth[k] == 0,
                Some(p) => 0 <= p < parents.len() && depth[k] == depth[p] + 1,
            },
    ensures
        reaches_root(parents, i, depth[i] as nat),
    decreases depth[i],
{
    match parents[i] {
        None => {},
        Some(p) => {
            lemma_depth_reaches_root(parents, depth, p);
        },
    }
}

// ---------------------------------------------------------------------------
// Lookup helpers
// ---------------------------------------------------------------------------

proof fn lemma_span_index_found(spans: Seq<Span>, id: Seq<char>, j: int)
    requires
        0 <= j < spans.len(),
        spans[j].span_id@ == id,
        forall|m: int| 0 <= m < j ==> spans[m].span_id@ != id,
    ensures
        spec_span_index(spans, id) == Some(j),
    decreases j,
{
    if j == 0 {
    } else {
        assert(spans.drop_first()[j - 1] == spans[j]);
        assert(forall|m: int| 0 <= m < j - 1 ==> spans.drop_first()[m] == spans[m + 1]);
        lemma_span_index_found(spans.drop_first(), id, j - 1);
    }
}

proof fn lemma_span_index_none(spans: Seq<Span>, id: Seq<char>)
    requires
        forall|m: int| 0 <= m < spans.len() ==> spans[m].span_id@ != id,
    ensures
        spec_span_index(spans, id) is None,
    decreases spans.len(),
{
    if spans.len() > 0 {
        assert(forall|m: int|
            0 <= m < spans.drop_first().len() ==> spans.drop_first()[m] == spans[m + 1]);
        lemma_span_index_none(spans.drop_first(), id);
    }
}

/// Find the index of the span registered under `id`, exactly as
/// [`spec_span_index`] describes.
pub fn span_index(spans: &Vec<Span>, id: &str) -> (r: Option<usize>)
    ensures
        match r {
            Some(j) => j < spans@.len() && spec_span_index(spans@, id@) == Some(j as int),
            None => spec_span_index(spans@, id@) is None,
        },
{
    let id_string = id.to_owned();
    let n = spans.len();
    let mut i: usize = 0;
    while i < n
        invariant
            0 <= i <= n == spans@.len(),
            id_string@ == id@,
            forall|m: int| 0 <= m < i ==> spans@[m].span_id@ != id@,
        decreases n - i,
    {
        if spans[i].span_id == id_string {
            proof {
                lemma_span_index_found(spans@, id@, i as int);
            }
            return Some(i);
        }
        i = i + 1;
    }
    proof {
        lemma_span_index_none(spans@, id@);
    }
    None
}

// ---------------------------------------------------------------------------
// Building the forest
// ---------------------------------------------------------------------------

/// Resolve every span's parent reference to an index, or report the span id a
/// reference names that the trace does not hold.
fn resolve_parents(spans: &Vec<Span>) -> (r: Result<Vec<Option<usize>>, GraphError>)
    ensures
        match r {
            Ok(parent) => {
                &&& parent@.len() == spans@.len()
                &&& forall|i: int|
                    0 <= i < spans@.len() ==> match #[trigger] parent@[i] {
                        Some(p) => p < spans@.len() && spec_parent_index(spans@, i) == Some(
                            p as int,
                        ),
                        None => spec_parent_index(spans@, i) is None && spec_parent_span_id(
                            spans@[i].references@,
                        ) is None,
                    }
                &&& !has_missing_parent(spans@)
            },
            Err(e) => e == GraphError::UnknownParent && has_missing_parent(spans@),
        },
{
    let n = spans.len();
    let mut parent: Vec<Option<usize>> = Vec::new();
    let mut i: usize = 0;
    while i < n
        invariant
            0 <= i <= n == spans@.len(),
            parent@.len() == i,
            forall|k: int|
                0 <= k < i ==> match #[trigger] parent@[k] {
                    Some(p) => p < spans@.len() && spec_parent_index(spans@, k) == Some(p as int),
                    None => spec_parent_index(spans@, k) is None && spec_parent_span_id(
                        spans@[k].references@,
                    ) is None,
                },
        decreases n - i,
    {
        match spans[i].parent_span_id() {
            None => {
                parent.push(None);
            },
            Some(pid) => {
                match span_index(spans, pid.as_str()) {
                    Some(j) => {
                        parent.push(Some(j));
                    },
                    None => {
                        assert(has_missing_parent(spans@)) by {
                            assert(spec_parent_span_id(spans@[i as int].references@) is Some
                                && spec_span_index(
                                spans@,
                                spec_parent_span_id(spans@[i as int].references@).unwrap(),
                            ) is None);
                        };
                        return Err(GraphError::UnknownParent);
                    },
                }
            },
        }
        i = i + 1;
    }
    assert(!has_missing_parent(spans@)) by {
        assert forall|k: int|
            0 <= k < spans@.len() && spec_parent_span_id(
                spans@[k].references@,
            ) is Some implies spec_span_index(
            spans@,
            spec_parent_span_id(spans@[k].references@).unwrap(),
        ) is Some by {
            assert(parent@[k] is Some);
        };
    };
    Ok(parent)
}

/// A partial depth labelling is consistent: a labelled root is at zero, any
/// other labelled node is one deeper than its (labelled) parent, and no label
/// exceeds `bound`.
pub open spec fn depths_sound(
    parent: Seq<Option<usize>>,
    dopt: Seq<Option<usize>>,
    bound: int,
) -> bool {
    forall|k: int|
        0 <= k < dopt.len() ==> match #[trigger] dopt[k] {
            Some(d) => d <= bound && match parent[k] {
                None => d == 0,
                Some(p) => d >= 1 && dopt[p as int] == Some((d - 1) as usize),
            },
            None => true,
        }
}

/// Every node within `fuel` parent steps of a root is labelled.
pub open spec fn depths_complete(
    pars: Seq<Option<int>>,
    dopt: Seq<Option<usize>>,
    fuel: nat,
) -> bool {
    forall|k: int|
        0 <= k < dopt.len() && #[trigger] reaches_root(pars, k, fuel) ==> dopt[k] is Some
}

/// What one labelling round makes of entry `k`: an existing label is kept; an
/// unlabelled node whose parent is labelled `d` is labelled `d + 1`.
pub open spec fn round_entry(
    parent: Seq<Option<usize>>,
    dopt: Seq<Option<usize>>,
    k: int,
) -> Option<usize> {
    if dopt[k] is Some {
        dopt[k]
    } else {
        match parent[k] {
            Some(p) => match dopt[p as int] {
                Some(d) => Some((d + 1) as usize),
                None => None,
            },
            None => dopt[k],
        }
    }
}

/// Run one labelling round over the whole node list.
fn propagate_round(parent: &Vec<Option<usize>>, depth_opt: &mut Vec<Option<usize>>, rounds: usize)
    requires
        parent@.len() == old(depth_opt)@.len(),
        rounds < parent@.len(),
        forall|i: int|
            0 <= i < parent@.len() && #[trigger] parent@[i] is Some ==> parent@[i].unwrap()
                < parent@.len(),
        depths_sound(parent@, old(depth_opt)@, rounds as int),
        depths_complete(lift_parents(parent@), old(depth_opt)@, rounds as nat),
    ensures
        final(depth_opt)@.len() == parent@.len(),
        depths_sound(parent@, final(depth_opt)@, rounds + 1),
        depths_complete(lift_parents(parent@), final(depth_opt)@, (rounds + 1) as nat),
{
    let ghost pars = lift_parents(parent@);
    let ghost before = depth_opt@;
    let n = parent.len();
    let mut next: Vec<Option<usize>> = Vec::new();
    let mut i: usize = 0;
    while i < n
        invariant
            0 <= i <= n == parent@.len() == depth_opt@.len(),
            rounds < n,
            before == depth_opt@,
            forall|i2: int|
                0 <= i2 < n && #[trigger] parent@[i2] is Some ==> parent@[i2].unwrap() < n,
            depths_sound(parent@, depth_opt@, rounds as int),
            next@.len() == i,
            forall|k: int| 0 <= k < i ==> #[trigger] next@[k] == round_entry(parent@, before, k),
        decreases n - i,
    {
        let cur = depth_opt[i];
        match cur {
            Some(d) => {
                next.push(Some(d));
            },
            None => {
                match parent[i] {
                    Some(p) => {
                        match depth_opt[p] {
                            Some(d) => {
                                assert(d <= rounds);
                                next.push(Some(d + 1));
                            },
                            None => {
                                next.push(None);
                            },
                        }
                    },
                    None => {
                        next.push(None);
                    },
                }
            },
        }
        i = i + 1;
    }
    *depth_opt = next;
    assert(depths_sound(parent@, depth_opt@, rounds + 1)) by {
        assert forall|k: int| 0 <= k < n implies match #[trigger] depth_opt@[k] {
            Some(d) => d <= rounds + 1 && match parent@[k] {
                None => d == 0,
                Some(p) => d >= 1 && depth_opt@[p as int] == Some((d - 1) as usize),
            },
            None => true,
        } by {
            assert(depth_opt@[k] == round_entry(parent@, before, k));
            if depth_opt@[k] is Some {
                match parent@[k] {
                    None => {},
                    Some(p) => {
                        assert(depth_opt@[p as int] == round_entry(parent@, before, p as int));
                    },
                }
            }
        };
    };
    assert(depths_complete(pars, depth_opt@, (rounds + 1) as nat)) by {
        assert forall|k: int|
            0 <= k < n && #[trigger] reaches_root(
                pars,
                k,
                (rounds + 1) as nat,
            ) implies depth_opt@[k] is Some by {
            assert(depth_opt@[k] == round_entry(parent@, before, k));
            match pars[k] {
                None => {
                    assert(reaches_root(pars, k, rounds as nat));
                },
                Some(p) => {
                    assert(reaches_root(pars, p, rounds as nat));
                    assert(before[p] is Some);
                },
            }
        };
    };
}

/// Label every node with its distance to its root, or report a cycle.
///
/// Roots are labelled first; then, as long as an unlabelled node has a
/// labelled parent, it is labelled one deeper. A node still unlabelled after
/// as many rounds as there are nodes cannot reach a root.
fn compute_depths(parent: &Vec<Option<usize>>) -> (r: Result<Vec<usize>, GraphError>)
    requires
        forall|i: int|
            0 <= i < parent@.len() && #[trigger] parent@[i] is Some ==> parent@[i].unwrap()
                < parent@.len(),
    ensures
        match r {
            Ok(depth) => {
                &&& depth@.len() == parent@.len()
                &&& forall|i: int|
                    0 <= i < parent@.len() ==> match #[trigger] parent@[i] {
                        None => depth@[i] == 0,
                        Some(p) => depth@[i] == depth@[p as int] + 1,
                    }
                &&& forall|i: int| 0 <= i < parent@.len() ==> #[trigger] depth@[i] <= parent@.len()
                &&& acyclic(lift_parents(parent@))
            },
            Err(e) => e == GraphError::Cycle && !acyclic(lift_parents(parent@)),
        },
{
    let ghost pars = lift_parents(parent@);
    let n = parent.len();
    let mut depth_opt: Vec<Option<usize>> = Vec::new();
    let mut i: usize = 0;
    while i < n
        invariant
            0 <= i <= n,
            depth_opt@.len() == i,
            forall|k: int| 0 <= k < i ==> #[trigger] depth_opt@[k] is None,
        decreases n - i,
    {
        depth_opt.push(None);
        i = i + 1;
    }
    // label the roots
    let mut i: usize = 0;
    while i < n
        invariant
            0 <= i <= n == parent@.len() == depth_opt@.len(),
            pars == lift_parents(parent@),
            forall|k: int|
                0 <= k < n ==> match #[trigger] depth_opt@[k] {
                    Some(d) => d == 0 && parent@[k] is None,
                    None => true,
                },
            forall|k: int| 0 <= k < i && parent@[k] is None ==> #[trigger] depth_opt@[k] is Some,
        decreases n - i,
    {
        if parent[i].is_none() {
            depth_opt[i] = Some(0);
        }
        i = i + 1;
    }
    assert(depths_sound(parent@, depth_opt@, 0));
    assert(depths_complete(pars, depth_opt@, 0));
    // propagate one level per round
    let mut rounds: usize = 0;
    while rounds < n
        invariant
            0 <= rounds <= n,
            n == parent@.len() == depth_opt@.len(),
            pars == lift_parents(parent@),
            forall|i2: int|
                0 <= i2 < n && #[trigger] parent@[i2] is Some ==> parent@[i2].unwrap() < n,
            depths_sound(parent@, depth_opt@, rounds as int),
            depths_complete(pars, depth_opt@, rounds as nat),
        decreases n - rounds,
    {
        propagate_round(parent, &mut depth_opt, rounds);
        rounds = rounds + 1;
    }
    // every node that reaches a root is labelled; an unlabelled node is a cycle
    let mut i: usize = 0;
    while i < n
        invariant
            0 <= i <= n == parent@.len() == depth_opt@.len(),
            pars == lift_parents(parent@),
            depths_sound(parent@, depth_opt@, n as int),
            depths_complete(pars, depth_opt@, n as nat),
            forall|k: int| 0 <= k < i ==> #[trigger] depth_opt@[k] is Some,
        decreases n - i,
    {
        if depth_opt[i].is_none() {
            assert(!reaches_root(pars, i as int, pars.len() as nat));
            assert(!acyclic(pars));
            return Err(GraphError::Cycle);
        }
        i = i + 1;
    }
    let mut depth: Vec<usize> = Vec::new();
    let mut i: usize = 0;
    while i < n
        invariant
            0 <= i <= n == parent@.len() == depth_opt@.len(),
            depth@.len() == i,
            forall|k: int| 0 <= k < n ==> #[trigger] depth_opt@[k] is Some,
            depths_sound(parent@, depth_opt@, n as int),
            forall|k: int| 0 <= k < i ==> depth_opt@[k] == Some(#[trigger] depth@[k]),
        decreases n - i,
    {
        let d = depth_opt[i].unwrap();
        depth.push(d);
        i = i + 1;
    }
    assert(acyclic(pars)) by {
        assert forall|k: int| 0 <= k < pars.len() implies reaches_root(
            pars,
            k,
            pars.len() as nat,
        ) by {
            lemma_depth_reaches_root(pars, depth@, k);
            lemma_reaches_root_mono(pars, k, depth@[k] as nat, pars.len() as nat);
        };
    };
    Ok(depth)
}

/// Collect every node's children, in index order.
fn build_children(parent: &Vec<Option<usize>>) -> (children: Vec<Vec<usize>>)
    requires
        forall|i: int|
            0 <= i < parent@.len() && #[trigger] parent@[i] is Some ==> parent@[i].unwrap()
                < parent@.len(),
    ensures
        children@.len() == parent@.len(),
        forall|i: int, k: int|
            0 <= i < parent@.len() && 0 <= k < children@[i]@.len() ==> #[trigger] children@[i]@[k]
                < parent@.len() && parent@[children@[i]@[k] as int] == Some(i as usize),
        forall|i: int, a: int, b: int|
            0 <= i < parent@.len() && 0 <= a < b < children@[i]@.len()
                ==> #[trigger] children@[i]@[a] < #[trigger] children@[i]@[b],
        forall|j: int|
            0 <= j < parent@.len() && #[trigger] parent@[j] is Some
                ==> children@[parent@[j].unwrap() as int]@.contains(j as usize),
{
    let n = parent.len();
    let mut children: Vec<Vec<usize>> = Vec::new();
    let mut i: usize = 0;
    while i < n
        invariant
            0 <= i <= n,
            children@.len() == i,
            forall|k: int| 0 <= k < i ==> #[trigger] children@[k]@.len() == 0,
        decreases n - i,
    {
        children.push(Vec::new());
        i = i + 1;
    }
    let mut j: usize = 0;
    while j < n
        invariant
            0 <= j <= n == parent@.len() == children@.len(),
            forall|i2: int|
                0 <= i2 < n && #[trigger] parent@[i2] is Some ==> parent@[i2].unwrap() < n,
            forall|i2: int, k: int|
                0 <= i2 < n && 0 <= k < children@[i2]@.len() ==> #[trigger] children@[i2]@[k] < j
                    && parent@[children@[i2]@[k] as int] == Some(i2 as usize),
            forall|i2: int, a: int, b: int|
                0 <= i2 < n && 0 <= a < b < children@[i2]@.len() ==> #[trigger] children@[i2]@[a]
                    < #[trigger] children@[i2]@[b],
            forall|j2: int|
                0 <= j2 < j && #[trigger] parent@[j2] is Some
                    ==> children@[parent@[j2].unwrap() as int]@.contains(j2 as usize),
        decreases n - j,
    {
        if let Some(p) = parent[j] {
            let ghost before = children@;
            children[p].push(j);
            proof {
                assert(children@.len() == before.len());
                assert(forall|k: int|
                    0 <= k < before.len() && k != p ==> #[trigger] children@[k] == before[k]);
                assert(children@[p as int]@ =~= before[p as int]@.push(j));
                assert(children@[p as int]@[children@[p as int]@.len() - 1] == j);
                assert forall|j2: int|
                    0 <= j2 < j + 1 && #[trigger] parent@[j2] is Some implies children@[parent@[j2].unwrap() as int]@.contains(
                    j2 as usize,
                ) by {
                    let par = parent@[j2].unwrap() as int;
                    if j2 == j as int {
                        assert(children@[p as int]@[children@[p as int]@.len() - 1] == j);
                    } else if par == p as int {
                        let idx = choose|idx: int|
                            0 <= idx < before[par]@.len() && before[par]@[idx] == j2 as usize;
                        assert(children@[par]@[idx] == j2 as usize);
                    } else {
                        assert(children@[par] == before[par]);
                    }
                };
            }
        }
        j = j + 1;
    }
    children
}

// ---------------------------------------------------------------------------
// The graph itself
// ---------------------------------------------------------------------------

/// The forest one trace's parent references span: nodes are the trace's spans
/// by index; each node knows its parent, its children (in index order) and its
/// distance to its root.
#[derive(Debug)]
pub struct Graph<'a> {
    /// The trace the graph indexes into.
    pub trace: &'a TraceObject,
    /// Parent index of each node, if it has one.
    pub parent: Vec<Option<usize>>,
    /// Children of each node, in ascending index order.
    pub children: Vec<Vec<usize>>,
    /// Distance of each node to its root.
    pub depth: Vec<usize>,
}

impl<'a> Graph<'a> {
    /// The structural invariant: parent edges mirror the trace's `CHILD_OF`
    /// references, depths certify the absence of cycles, and children lists
    /// are exactly the inverse of the parent map.
    pub open spec fn wf(self) -> bool {
        let n = self.trace.spans@.len() as int;
        let spans = self.trace.spans@;
        &&& self.trace.wf()
        &&& !has_missing_parent(spans)
        &&& self.parent@.len() == n
        &&& self.children@.len() == n
        &&& self.depth@.len() == n
        &&& forall|i: int|
            0 <= i < n ==> match #[trigger] self.parent@[i] {
                Some(p) => p < n && spec_parent_index(spans, i) == Some(p as int)
                    && self.depth@[i] == self.depth@[p as int] + 1,
                None => spec_parent_index(spans, i) is None && spec_parent_span_id(
                    spans[i].references@,
                ) is None && self.depth@[i] == 0,
            }
        &&& forall|i: int| 0 <= i < n ==> #[trigger] self.depth@[i] <= n
        &&& forall|i: int, k: int|
            0 <= i < n && 0 <= k < self.children@[i]@.len() ==> #[trigger] self.children@[i]@[k]
                < n && self.parent@[self.children@[i]@[k] as int] == Some(i as usize)
        &&& forall|i: int, a: int, b: int|
            0 <= i < n && 0 <= a < b < self.children@[i]@.len() ==> #[trigger] self.children@[i]@[a]
                < #[trigger] self.children@[i]@[b]
        &&& forall|j: int|
            0 <= j < n && #[trigger] self.parent@[j] is Some
                ==> self.children@[self.parent@[j].unwrap() as int]@.contains(j as usize)
    }

    /// Number of nodes.
    pub open spec fn spec_len(self) -> int {
        self.trace.spans@.len() as int
    }

    /// Build the forest for one trace.
    ///
    /// Fails with `UnknownParent` exactly when a span's parent reference names
    /// an id outside the trace, and with `Cycle` exactly when the references
    /// do not form a forest; a well-formed trace always yields a graph.
    pub fn new(trace: &'a TraceObject) -> (r: Result<Graph<'a>, GraphError>)
        requires
            trace.wf(),
        ensures
            match r {
                Ok(g) => g.trace == trace && g.wf() && !has_missing_parent(trace.spans@)
                    && acyclic(spec_parents(trace.spans@)),
                Err(e) => (e == GraphError::UnknownParent && has_missing_parent(trace.spans@)) || (
                e == GraphError::Cycle && !has_missing_parent(trace.spans@) && !acyclic(
                    spec_parents(trace.spans@),
                )),
            },
    {
        let parent = match resolve_parents(&trace.spans) {
            Ok(parent) => parent,
            Err(e) => {
                return Err(e);
            },
        };
        proof {
            assert(lift_parents(parent@) =~= spec_parents(trace.spans@));
        }
        let depth = match compute_depths(&parent) {
            Ok(depth) => depth,
            Err(e) => {
                return Err(e);
            },
        };
        let children = build_children(&parent);
        Ok(Graph { trace, parent, children, depth })
    }

    /// The ancestor chain of node `i`, nearest first, ending at its root.
    pub open spec fn spec_ancestors(self, i: int) -> Seq<int>
        decreases self.depth@[i],
        when self.wf() && 0 <= i < self.spec_len()
    {
        match self.parent@[i] {
            None => Seq::<int>::empty(),
            Some(p) => seq![p as int] + self.spec_ancestors(p as int),
        }
    }

    /// The children of node `i`, as mathematical indices.
    pub open spec fn children_at(self, i: int) -> Seq<int> {
        self.children@[i]@.map_values(|u: usize| u as int)
    }

    /// A depth-first walk as a stack machine: visit the top of the stack, put
    /// its children on top of the rest, stop when the stack or the budget runs
    /// out. The budget is what bounds the walk on any input.
    pub open spec fn bounded_dfs(self, stack: Seq<int>, budget: nat) -> Seq<int>
        decreases budget,
    {
        if budget == 0 || stack.len() == 0 {
            Seq::<int>::empty()
        } else {
            seq![stack[0]] + self.bounded_dfs(
                self.children_at(stack[0]) + stack.drop_first(),
                (budget - 1) as nat,
            )
        }
    }

    /// Walk the forest depth first from the nodes of `start` (left to right),
    /// visiting at most `budget` nodes; exactly [`Graph::bounded_dfs`].
    pub fn dfs_walk(&self, start: &Vec<usize>, budget: usize) -> (out: Vec<usize>)
        requires
            self.wf(),
            forall|k: int| 0 <= k < start@.len() ==> #[trigger] start@[k] < self.spec_len(),
        ensures
            out@.map_values(|u: usize| u as int) == self.bounded_dfs(
                start@.map_values(|u: usize| u as int),
                budget as nat,
            ),
            forall|k: int| 0 <= k < out@.len() ==> #[trigger] out@[k] < self.spec_len(),
            out@.len() <= budget,
    {
        let ghost n = self.spec_len();
        let mut stack: Vec<usize> = Vec::new();
        let mut k: usize = 0;
        let m = start.len();
        while k < m
            invariant
                0 <= k <= m == start@.len(),
                stack@ == start@.subrange(0, k as int),
                forall|k2: int| 0 <= k2 < start@.len() ==> #[trigger] start@[k2] < n,
                n == self.spec_len(),
            decreases m - k,
        {
            stack.push(start[k]);
            assert(stack@ =~= start@.subrange(0, k + 1));
            k = k + 1;
        }
        assert(stack@ =~= start@);
        let mut out: Vec<usize> = Vec::new();
        let mut steps: usize = 0;
        let ghost whole = self.bounded_dfs(start@.map_values(|u: usize| u as int), budget as nat);
        while stack.len() > 0 && steps < budget
            invariant
                self.wf(),
                n == self.spec_len(),
                steps <= budget,
                out@.len() == steps,
                forall|k2: int| 0 <= k2 < stack@.len() ==> #[trigger] stack@[k2] < n,
                forall|k2: int| 0 <= k2 < out@.len() ==> #[trigger] out@[k2] < n,
                whole == out@.map_values(|u: usize| u as int) + self.bounded_dfs(
                    stack@.map_values(|u: usize| u as int),
                    (budget - steps) as nat,
                ),
            decreases budget - steps,
        {
            let ghost stack_before = stack@;
            let ghost out_before = out@;
            let i = stack.remove(0);
            out.push(i);
            // put i's children on top of the rest of the stack
            let row_len = self.children[i].len();
            let mut k: usize = 0;
            while k < row_len
                invariant
                    0 <= k <= row_len == self.children@[i as int]@.len(),
                    self.wf(),
                    n == self.spec_len(),
                    i < n,
                    stack@ =~= self.children@[i as int]@.subrange(0, k as int)
                        + stack_before.drop_first(),
                decreases row_len - k,
            {
                let c = self.children[i][k];
                stack.insert(k, c);
                assert(stack@ =~= self.children@[i as int]@.subrange(0, k + 1)
                    + stack_before.drop_first());
                k = k + 1;
            }
            assert(stack@ =~= self.children@[i as int]@ + stack_before.drop_first());
            steps = steps + 1;
            proof {
                let lifted_before = stack_before.map_values(|u: usize| u as int);
                let lifted_after = stack@.map_values(|u: usize| u as int);
                assert(lifted_before[0] == i as int);
                assert(lifted_after =~= self.children_at(i as int) + lifted_before.drop_first());
                assert(self.bounded_dfs(lifted_before, (budget - steps + 1) as nat) == seq![
                    i as int,
                ] + self.bounded_dfs(lifted_after, (budget - steps) as nat));
                assert(out@.map_values(|u: usize| u as int) =~= out_before.map_values(
                    |u: usize| u as int,
                ) + seq![i as int]);
                assert(out@.map_values(|u: usize| u as int) + self.bounded_dfs(
                    lifted_after,
                    (budget - steps) as nat,
                ) =~= whole);
            }
        }
        proof {
            assert(self.bounded_dfs(
                stack@.map_values(|u: usize| u as int),
                (budget - steps) as nat,
            ) =~= Seq::<int>::empty());
            assert(whole =~= out@.map_values(|u: usize| u as int));
        }
        out
    }

    /// Walk depth first from the span registered under `id`, that span first,
    /// with as much budget as the trace has spans.
    pub fn search(&self, id: &str) -> (r: Result<Vec<&'a Span>, GraphError>)
        requires
            self.wf(),
        ensures
            match r {
                Ok(out) => {
                    &&& spec_span_index(self.trace.spans@, id@) is Some
                    &&& {
                        let order = self.bounded_dfs(
                            seq![spec_span_index(self.trace.spans@, id@).unwrap()],
                            self.spec_len() as nat,
                        );
                        &&& out@.len() == order.len()
                        &&& forall|k: int|
                            0 <= k < order.len() ==> *(#[trigger] out@[k])
                                == self.trace.spans@[order[k]]
                    }
                },
                Err(e) => e == GraphError::SpanNotFound && spec_span_index(
                    self.trace.spans@,
                    id@,
                ) is None,
            },
    {
        let idx = match span_index(&self.trace.spans, id) {
            Some(i) => i,
            None => {
                return Err(GraphError::SpanNotFound);
            },
        };
        let mut start: Vec<usize> = Vec::new();
        start.push(idx);
        assert(start@.map_values(|u: usize| u as int) =~= seq![idx as int]);
        let order = self.dfs_walk(&start, self.trace.spans.len());
        let trace = self.trace;
        let mut out: Vec<&'a Span> = Vec::new();
        let ghost lifted = order@.map_values(|u: usize| u as int);
        let mut k: usize = 0;
        let m = order.len();
        while k < m
            invariant
                0 <= k <= m == order@.len(),
                lifted == order@.map_values(|u: usize| u as int),
                trace == self.trace,
                forall|k2: int| 0 <= k2 < m ==> #[trigger] order@[k2] < trace.spans@.len(),
                out@.len() == k,
                forall|k2: int|
                    0 <= k2 < k ==> *(#[trigger] out@[k2]) == trace.spans@[lifted[k2]],
            decreases m - k,
        {
            out.push(&trace.spans[order[k]]);
            k = k + 1;
        }
        Ok(out)
    }

    /// Walk the parent chain of node `i`, nearest ancestor first, visiting at
    /// most `budget` nodes: the first `budget` entries of
    /// [`Graph::spec_ancestors`].
    pub fn ancestors_walk(&self, i: usize, budget: usize) -> (out: Vec<usize>)
        requires
            self.wf(),
            i < self.spec_len(),
        ensures
            out@.map_values(|u: usize| u as int) == seq_prefix(
                self.spec_ancestors(i as int),
                budget as nat,
            ),
            forall|k: int| 0 <= k < out@.len() ==> #[trigger] out@[k] < self.spec_len(),
    {
        let ghost chain = self.spec_ancestors(i as int);
        let mut out: Vec<usize> = Vec::new();
        let mut cur: usize = i;
        let mut steps: usize = 0;
        let ghost mut done: Seq<int> = Seq::empty();
        assert(done + self.spec_ancestors(cur as int) =~= chain);
        assert(done =~= out@.map_values(|u: usize| u as int));
        loop
            invariant
                self.wf(),
                0 <= cur < self.spec_len(),
                steps <= budget,
                chain == done + self.spec_ancestors(cur as int),
                done == out@.map_values(|u: usize| u as int),
                out@.len() == steps,
                forall|k: int| 0 <= k < out@.len() ==> #[trigger] out@[k] < self.spec_len(),
            ensures
                out@.map_values(|u: usize| u as int) == seq_prefix(chain, budget as nat),
                forall|k: int| 0 <= k < out@.len() ==> #[trigger] out@[k] < self.spec_len(),
            decreases budget - steps,
        {
            if steps >= budget {
                proof {
                    assert(done.len() + self.spec_ancestors(cur as int).len() == chain.len());
                    if chain.len() <= budget as nat {
                        assert(self.spec_ancestors(cur as int).len() == 0);
                        assert(chain =~= done);
                    } else {
                        assert(chain.take(budget as int) =~= done);
                    }
                }
                break ;
            }
            match self.parent[cur] {
                None => {
                    proof {
                        assert(self.spec_ancestors(cur as int) =~= Seq::<int>::empty());
                        assert(chain =~= done);
                        assert(seq_prefix(chain, budget as nat) == chain);
                    }
                    break ;
                },
                Some(p) => {
                    out.push(p);
                    proof {
                        assert(self.spec_ancestors(cur as int) == seq![p as int]
                            + self.spec_ancestors(p as int));
                        done = done.push(p as int);
                        assert(chain =~= done + self.spec_ancestors(p as int));
                        assert(done =~= out@.map_values(|u: usize| u as int));
                    }
                    cur = p;
                    steps = steps + 1;
                },
            }
        }
        out
    }

    /// Walk the parent chain of the span registered under `id`, nearest
    /// ancestor first, ending at the root; exactly [`Graph::spec_ancestors`].
    pub fn parents(&self, id: &str) -> (r: Result<Vec<&'a Span>, GraphError>)
        requires
            self.wf(),
        ensures
            match r {
                Ok(out) => {
                    &&& spec_span_index(self.trace.spans@, id@) is Some
                    &&& {
                        let chain = self.spec_ancestors(
                            spec_span_index(self.trace.spans@, id@).unwrap(),
                        );
                        &&& out@.len() == chain.len()
                        &&& forall|k: int|
                            0 <= k < chain.len() ==> *(#[trigger] out@[k])
                                == self.trace.spans@[chain[k]]
                    }
                },
                Err(e) => e == GraphError::SpanNotFound && spec_span_index(
                    self.trace.spans@,
                    id@,
                ) is None,
            },
    {
        let idx = match span_index(&self.trace.spans, id) {
            Some(i) => i,
            None => {
                return Err(GraphError::SpanNotFound);
            },
        };
        let trace = self.trace;
        let mut out: Vec<&'a Span> = Vec::new();
        let mut cur: usize = idx;
        let ghost chain = self.spec_ancestors(idx as int);
        let ghost mut done: Seq<int> = Seq::empty();
        assert(done + self.spec_ancestors(cur as int) =~= chain);
        loop
            invariant
                self.wf(),
                trace == self.trace,
                0 <= cur < self.spec_len(),
                chain == done + self.spec_ancestors(cur as int),
                out@.len() == done.len(),
                forall|k: int| 0 <= k < done.len() ==> 0 <= #[trigger] done[k] < self.spec_len(),
                forall|k: int| 0 <= k < done.len() ==> *(#[trigger] out@[k]) == trace.spans@[done[k]],
            ensures
                chain == done,
                out@.len() == done.len(),
                forall|k: int| 0 <= k < done.len() ==> *(#[trigger] out@[k]) == trace.spans@[done[k]],
            decreases self.depth@[cur as int],
        {
            match self.parent[cur] {
                None => {
                    assert(self.spec_ancestors(cur as int) =~= Seq::<int>::empty());
                    assert(chain =~= done);
                    break ;
                },
                Some(p) => {
                    out.push(&trace.spans[p]);
                    proof {
                        assert(self.spec_ancestors(cur as int) == seq![p as int]
                            + self.spec_ancestors(p as int));
                        done = done.push(p as int);
                        assert(chain =~= done + self.spec_ancestors(p as int));
                    }
                    cur = p;
                },
            }
        }
        Ok(out)
    }
}

// ---------------------------------------------------------------------------
// Counting and chain laws
// ---------------------------------------------------------------------------

/// How many nodes carry a parent edge.
pub open spec fn spec_num_edges(parent: Seq<Option<usize>>) -> int
    decreases parent.len(),
{
    if parent.len() == 0 {
        0
    } else {
        spec_num_edges(parent.drop_last()) + if parent.last() is Some {
            1int
        } else {
            0int
        }
    }
}

/// How many spans carry no parent reference.
pub open spec fn spec_num_roots(spans: Seq<Span>) -> int
    decreases spans.len(),
{
    if spans.len() == 0 {
        0
    } else {
        spec_num_roots(spans.drop_last()) + if spec_parent_span_id(
            spans.last().references@,
        ) is None {
            1int
        } else {
            0int
        }
    }
}

proof fn lemma_edge_count_prefix(g: Graph<'_>, i: int)
    requires
        g.wf(),
        0 <= i <= g.spec_len(),
    ensures
        spec_num_edges(g.parent@.take(i)) == i - spec_num_roots(g.trace.spans@.take(i)),
    decreases i,
{
    if i > 0 {
        lemma_edge_count_prefix(g, i - 1);
        assert(g.parent@.take(i).drop_last() =~= g.parent@.take(i - 1));
        assert(g.trace.spans@.take(i).drop_last() =~= g.trace.spans@.take(i - 1));
        assert(g.parent@.take(i).last() == g.parent@[i - 1]);
        assert(g.trace.spans@.take(i).last() == g.trace.spans@[i - 1]);
        assert(g.parent@[i - 1] is Some <==> spec_parent_span_id(
            g.trace.spans@[i - 1].references@,
        ) is Some) by {
            match g.parent@[i - 1] {
                Some(_) => {
                    assert(spec_parent_index(g.trace.spans@, i - 1) is Some);
                },
                None => {},
            }
        };
    }
}

/// A well-formed graph holds one node per span of its trace and one edge per
/// span that carries a parent reference: with `N` spans and `R` root spans —
/// spans with no parent reference — exactly `N - R` edges.
pub proof fn lemma_graph_node_edge_count(g: Graph<'_>)
    requires
        g.wf(),
    ensures
        g.parent@.len() == g.trace.spans@.len(),
        spec_num_edges(g.parent@) == g.trace.spans@.len() - spec_num_roots(g.trace.spans@),
{
    lemma_edge_count_prefix(g, g.spec_len());
    assert(g.parent@.take(g.spec_len()) =~= g.parent@);
    assert(g.trace.spans@.take(g.spec_len()) =~= g.trace.spans@);
}

/// Along the ancestor chain the depths count down one by one.
proof fn lemma_ancestors_depths(g: Graph<'_>, i: int)
    requires
        g.wf(),
        0 <= i < g.spec_len(),
    ensures
        g.spec_ancestors(i).len() == g.depth@[i],
        forall|k: int|
            0 <= k < g.spec_ancestors(i).len() ==> 0 <= #[trigger] g.spec_ancestors(i)[k]
                < g.spec_len() && g.depth@[g.spec_ancestors(i)[k]] == g.depth@[i] - 1 - k,
    decreases g.depth@[i],
{
    match g.parent@[i] {
        None => {},
        Some(p) => {
            lemma_ancestors_depths(g, p as int);
            let chain = g.spec_ancestors(i);
            let rest = g.spec_ancestors(p as int);
            assert(chain == seq![p as int] + rest);
            assert forall|k: int| 0 <= k < chain.len() implies 0 <= #[trigger] chain[k]
                < g.spec_len() && g.depth@[chain[k]] == g.depth@[i] - 1 - k by {
                if k > 0 {
                    assert(chain[k] == rest[k - 1]);
                }
            };
        },
    }
}

/// The parent chain from any span reaches its root in at most as many steps
/// as the trace has spans, and never revisits a span.
pub proof fn lemma_parent_chain_bounded(g: Graph<'_>, i: int)
    requires
        g.wf(),
        0 <= i < g.spec_len(),
    ensures
        g.spec_ancestors(i).len() <= g.spec_len(),
        forall|a: int, b: int|
            0 <= a < b < g.spec_ancestors(i).len() ==> #[trigger] g.spec_ancestors(i)[a]
                != #[trigger] g.spec_ancestors(i)[b],
        g.spec_ancestors(i).len() > 0 ==> g.parent@[g.spec_ancestors(i).last()] is None,
        g.spec_ancestors(i).len() == 0 ==> g.parent@[i] is None,
{
    lemma_ancestors_depths(g, i);
    let chain = g.spec_ancestors(i);
    assert forall|a: int, b: int|
        0 <= a < b < chain.len() implies #[trigger] chain[a] != #[trigger] chain[b] by {
        assert(g.depth@[chain[a]] != g.depth@[chain[b]]);
    };
    if chain.len() > 0 {
        assert(g.depth@[chain.last()] == 0);
    }
}

} // verus!
