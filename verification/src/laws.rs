//! The properties the construction guarantees, stated and proved over the
//! functional model: the shape of straight-line graphs, the two-node graph
//! of an empty body, completeness of branch edges, density of node ids, and
//! the absence of leftover placeholder nodes.

use vstd::prelude::*;

use crate::cfg::build_cfg_spec;
use crate::cfg::build_stmts;
use crate::cfg::false_label;
use crate::cfg::first_out;
use crate::cfg::live;
use crate::cfg::new_id;
use crate::cfg::norm_edges;
use crate::cfg::norm_nodes;
use crate::cfg::route;
use crate::cfg::true_label;
use crate::cfg::BuilderV;
use crate::cfg::EdgeV;
use crate::cfg::NodeType;
use crate::cfg::NodeV;
use crate::statement::stmt_wf;
use crate::statement::stmts_wf;
use crate::statement::FunctionV;
use crate::statement::Statement;

verus! {

/// How many of the first `k` edges leave node `a`.
pub open spec fn count_out(edges: Seq<EdgeV>, a: nat, k: int) -> nat
    decreases k,
{
    if k <= 0 {
        0
    } else {
        count_out(edges, a, k - 1) + if edges[k - 1].from == a {
            1nat
        } else {
            0nat
        }
    }
}

/// How many of the first `k` edges leave node `a` carrying label `lab`.
pub open spec fn count_out_lab(edges: Seq<EdgeV>, a: nat, lab: Option<Seq<char>>, k: int) -> nat
    decreases k,
{
    if k <= 0 {
        0
    } else {
        count_out_lab(edges, a, lab, k - 1) + if edges[k - 1].from == a && edges[k - 1].label
            == lab {
            1nat
        } else {
            0nat
        }
    }
}

/// Counting only looks at the first `k` edges, so two lists that agree
/// there count alike.
proof fn lemma_count_congruence(e1: Seq<EdgeV>, e2: Seq<EdgeV>, a: nat, lab: Option<Seq<char>>, k: int)
    requires
        k <= e1.len(),
        k <= e2.len(),
        forall|i: int| 0 <= i < k ==> e1[i] == e2[i],
    ensures
        count_out(e1, a, k) == count_out(e2, a, k),
        count_out_lab(e1, a, lab, k) == count_out_lab(e2, a, lab, k),
    decreases k,
{
    if k > 0 {
        lemma_count_congruence(e1, e2, a, lab, k - 1);
    }
}

/// A stretch of edges none of which leaves `a` adds nothing to the counts.
proof fn lemma_count_skip(edges: Seq<EdgeV>, a: nat, lab: Option<Seq<char>>, k1: int, k2: int)
    requires
        0 <= k1 <= k2 <= edges.len(),
        forall|i: int| k1 <= i < k2 ==> (#[trigger] edges[i]).from != a,
    ensures
        count_out(edges, a, k2) == count_out(edges, a, k1),
        count_out_lab(edges, a, lab, k2) == count_out_lab(edges, a, lab, k1),
    decreases k2 - k1,
{
    if k1 < k2 {
        lemma_count_skip(edges, a, lab, k1, k2 - 1);
    }
}

/// Counts over a stretch in which exactly one edge leaves `a` with label
/// `lab` grow by exactly one.
proof fn lemma_count_lab_one(
    edges: Seq<EdgeV>,
    a: nat,
    lab: Option<Seq<char>>,
    k1: int,
    k2: int,
    idx: int,
)
    requires
        0 <= k1 <= idx < k2 <= edges.len(),
        edges[idx].from == a && edges[idx].label == lab,
        forall|i: int|
            k1 <= i < k2 && i != idx ==> !((#[trigger] edges[i]).from == a && edges[i].label
                == lab),
    ensures
        count_out_lab(edges, a, lab, k2) == count_out_lab(edges, a, lab, k1) + 1,
    decreases k2 - k1,
{
    if idx < k2 - 1 {
        lemma_count_lab_one(edges, a, lab, k1, k2 - 1, idx);
    } else {
        lemma_count_lab_skip(edges, a, lab, k1, k2 - 1);
    }
}

/// A stretch in which no edge leaves `a` with label `lab` adds nothing to
/// that labeled count, even if unlabeled or differently labeled edges
/// leave `a` there.
proof fn lemma_count_lab_skip(edges: Seq<EdgeV>, a: nat, lab: Option<Seq<char>>, k1: int, k2: int)
    requires
        0 <= k1 <= k2 <= edges.len(),
        forall|i: int|
            k1 <= i < k2 ==> !((#[trigger] edges[i]).from == a && edges[i].label == lab),
    ensures
        count_out_lab(edges, a, lab, k2) == count_out_lab(edges, a, lab, k1),
    decreases k2 - k1,
{
    if k1 < k2 {
        lemma_count_lab_skip(edges, a, lab, k1, k2 - 1);
    }
}

/// Counts over a stretch in which exactly one edge leaves `a` grow by
/// exactly one.
proof fn lemma_count_out_one(edges: Seq<EdgeV>, a: nat, k1: int, k2: int, idx: int)
    requires
        0 <= k1 <= idx < k2 <= edges.len(),
        edges[idx].from == a,
        forall|i: int| k1 <= i < k2 && i != idx ==> (#[trigger] edges[i]).from != a,
    ensures
        count_out(edges, a, k2) == count_out(edges, a, k1) + 1,
    decreases k2 - k1,
{
    if idx < k2 - 1 {
        lemma_count_out_one(edges, a, k1, k2 - 1, idx);
    } else {
        lemma_count_skip(edges, a, None, k1, k2 - 1);
    }
}

/// A `Some` answer of `first_out` is the target of an edge leaving `a`.
proof fn lemma_first_out_witness(edges: Seq<EdgeV>, a: nat, k: int)
    requires
        0 <= k <= edges.len(),
        first_out(edges, a, k) is Some,
    ensures
        exists|i: int|
            0 <= i < k && (#[trigger] edges[i]).from == a && edges[i].to == first_out(
                edges,
                a,
                k,
            )->0,
    decreases k,
{
    if k > 0 {
        if first_out(edges, a, k - 1) is Some {
            lemma_first_out_witness(edges, a, k - 1);
            let i = choose|i: int|
                0 <= i < k - 1 && (#[trigger] edges[i]).from == a && edges[i].to == first_out(
                    edges,
                    a,
                    k - 1,
                )->0;
            assert(edges[i].from == a && edges[i].to == first_out(edges, a, k)->0);
        } else {
            assert(edges[k - 1].from == a && edges[k - 1].to == first_out(edges, a, k)->0);
        }
    }
}

/// Wherever at least one edge leaves `a`, `first_out` finds one.
proof fn lemma_first_out_some(edges: Seq<EdgeV>, a: nat, k: int)
    requires
        0 <= k <= edges.len(),
        count_out(edges, a, k) >= 1,
    ensures
        first_out(edges, a, k) is Some,
    decreases k,
{
    if k > 0 {
        if count_out(edges, a, k - 1) >= 1 {
            lemma_first_out_some(edges, a, k - 1);
        }
    }
}

/// Every node of the normalized list carries its own position as id and is
/// no placeholder.
proof fn lemma_norm_nodes_shape(nodes: Seq<NodeV>, k: int)
    ensures
        forall|j: int|
            0 <= j < norm_nodes(nodes, k).len() ==> (#[trigger] norm_nodes(nodes, k)[j]).id == j
                && live(norm_nodes(nodes, k)[j]),
    decreases k,
{
    if k > 0 {
        lemma_norm_nodes_shape(nodes, k - 1);
    }
}

/// A live node's new id lies strictly below the number of nodes kept from
/// any longer prefix, and normalized prefixes only grow.
proof fn lemma_new_id_bound(nodes: Seq<NodeV>, i: int, k: int)
    requires
        0 <= i < k,
        live(nodes[i]),
    ensures
        new_id(nodes, i) < norm_nodes(nodes, k).len(),
    decreases k,
{
    if i < k - 1 {
        lemma_new_id_bound(nodes, i, k - 1);
    }
}

/// Every edge of the normalized list connects nodes of the normalized node
/// list.
proof fn lemma_norm_edges_in_range(nodes: Seq<NodeV>, edges: Seq<EdgeV>, k: int)
    requires
        k <= edges.len(),
    ensures
        forall|j: int|
            0 <= j < norm_edges(nodes, edges, k).len() ==> (#[trigger] norm_edges(
                nodes,
                edges,
                k,
            )[j]).from < norm_nodes(nodes, nodes.len() as int).len() && norm_edges(
                nodes,
                edges,
                k,
            )[j].to < norm_nodes(nodes, nodes.len() as int).len(),
    decreases k,
{
    if k > 0 {
        lemma_norm_edges_in_range(nodes, edges, k - 1);
        let e = edges[k - 1];
        if e.from < nodes.len() && live(nodes[e.from as int]) {
            lemma_new_id_bound(nodes, e.from as int, nodes.len() as int);
            match route(nodes, edges, e.to) {
                Some(t) => {
                    if e.to < nodes.len() && live(nodes[e.to as int]) {
                        lemma_new_id_bound(nodes, e.to as int, nodes.len() as int);
                    } else {
                        let s = first_out(edges, e.to, edges.len() as int)->0;
                        lemma_new_id_bound(nodes, s as int, nodes.len() as int);
                    }
                },
                None => {},
            }
        }
    }
}

/// Every live node's normalized id addresses a node of the same kind and
/// label, and every normalized node arises that way from a live raw node.
proof fn lemma_norm_nodes_elems(nodes: Seq<NodeV>, k: int)
    requires
        0 <= k <= nodes.len(),
    ensures
        forall|c: int|
            0 <= c < k && live(nodes[c]) ==> #[trigger] new_id(nodes, c) < norm_nodes(
                nodes,
                k,
            ).len(),
        forall|c: int|
            0 <= c < k && live(nodes[c]) ==> #[trigger] norm_nodes(nodes, k)[new_id(
                nodes,
                c,
            ) as int] == (NodeV { id: new_id(nodes, c), kind: nodes[c].kind, label: nodes[c].label }),
        forall|j: int|
            0 <= j < norm_nodes(nodes, k).len() ==> (#[trigger] norm_nodes(nodes, k)[j]).id == j
                && exists|c: int| 0 <= c < k && live(#[trigger] nodes[c]) && new_id(nodes, c) == j,
    decreases k,
{
    lemma_norm_nodes_shape(nodes, k);
    assert forall|c: int| 0 <= c < k && live(nodes[c]) implies #[trigger] new_id(nodes, c)
        < norm_nodes(nodes, k).len() by {
        lemma_new_id_bound(nodes, c, k);
    }
    if k > 0 {
        lemma_norm_nodes_elems(nodes, k - 1);
        assert forall|c: int| 0 <= c < k && live(nodes[c]) implies #[trigger] norm_nodes(
            nodes,
            k,
        )[new_id(nodes, c) as int] == (NodeV {
            id: new_id(nodes, c),
            kind: nodes[c].kind,
            label: nodes[c].label,
        }) by {
            if c < k - 1 {
                lemma_new_id_bound(nodes, c, k - 1);
                assert(norm_nodes(nodes, k - 1)[new_id(nodes, c) as int] == (NodeV {
                    id: new_id(nodes, c),
                    kind: nodes[c].kind,
                    label: nodes[c].label,
                }));
            }
        }
        assert forall|j: int| 0 <= j < norm_nodes(nodes, k).len() implies (#[trigger] norm_nodes(
            nodes,
            k,
        )[j]).id == j && exists|c: int|
            0 <= c < k && live(#[trigger] nodes[c]) && new_id(nodes, c) == j by {
            if j < norm_nodes(nodes, k - 1).len() {
                let ghost probe = norm_nodes(nodes, k - 1)[j];
                let c = choose|c: int|
                    0 <= c < k - 1 && live(#[trigger] nodes[c]) && new_id(nodes, c) == j;
                assert(live(nodes[c]) && new_id(nodes, c) == j);
            } else {
                assert(live(nodes[k - 1]) && new_id(nodes, k - 1) == j);
            }
        }
    } else {
        assert(norm_nodes(nodes, k).len() == 0);
    }
}

/// Labeled edge counts survive normalization: for a live source, the
/// finished graph holds as many edges with label `lab` leaving its new id
/// as the raw graph held leaving it — provided every placeholder's
/// outgoing edges are unlabeled and lead somewhere live, so that no
/// labeled edge is lost.
proof fn lemma_norm_count(nodes: Seq<NodeV>, edges: Seq<EdgeV>, c: nat, lab: Option<Seq<char>>, k: int)
    requires
        0 <= k <= edges.len(),
        forall|i: int|
            0 <= i < edges.len() ==> (#[trigger] edges[i]).from < nodes.len() && edges[i].to
                < nodes.len(),
        c < nodes.len(),
        live(nodes[c as int]),
        lab is Some,
        forall|i: int|
            0 <= i < edges.len() && !live(nodes[(#[trigger] edges[i]).from as int])
                ==> edges[i].label is None,
        forall|i: int|
            0 <= i < edges.len() && !live(nodes[(#[trigger] edges[i]).to as int]) ==> {
                let fo = first_out(edges, edges[i].to, edges.len() as int);
                fo is Some && fo->0 < nodes.len() && live(nodes[fo->0 as int])
            },
    ensures
        count_out_lab(
            norm_edges(nodes, edges, k),
            new_id(nodes, c as int),
            lab,
            norm_edges(nodes, edges, k).len() as int,
        ) == count_out_lab(edges, c, lab, k),
    decreases k,
{
    if k > 0 {
        lemma_norm_count(nodes, edges, c, lab, k - 1);
        let prev = norm_edges(nodes, edges, k - 1);
        let cur = norm_edges(nodes, edges, k);
        let e = edges[k - 1];
        let nid = new_id(nodes, c as int);
        if e.from < nodes.len() && live(nodes[e.from as int]) {
            match route(nodes, edges, e.to) {
                Some(t) => {
                    let e2 = EdgeV { from: new_id(nodes, e.from as int), to: t, label: e.label };
                    assert(cur == prev.push(e2));
                    lemma_count_congruence(cur, prev, nid, lab, prev.len() as int);
                    if e.from == c {
                    } else {
                        if e.from < c {
                            lemma_new_id_bound(nodes, e.from as int, c as int);
                        } else {
                            lemma_new_id_bound(nodes, c as int, e.from as int);
                        }
                        assert(e2.from != nid);
                    }
                },
                None => {
                    assert(!(e.to < nodes.len() && live(nodes[e.to as int])));
                    assert(false);
                },
            }
        } else {
            assert(e.label is None);
            assert(cur == prev);
        }
    }
}

/// The two branch labels are distinct.
proof fn lemma_labels_differ()
    ensures
        true_label() != false_label(),
{
    reveal_strlit("true");
    reveal_strlit("false");
    assert(true_label().len() == 4);
    assert(false_label().len() == 5);
}

/// Every condition node of the raw graph has exactly one outgoing edge
/// labeled `true` and one labeled `false`; no other node has either.
pub open spec fn cond_counts_ok(r: BuilderV, c: nat) -> bool {
    if r.nodes[c as int].kind == NodeType::Condition {
        &&& count_out_lab(r.edges, c, Some(true_label()), r.edges.len() as int) == 1
        &&& count_out_lab(r.edges, c, Some(false_label()), r.edges.len() as int) == 1
    } else {
        &&& count_out_lab(r.edges, c, Some(true_label()), r.edges.len() as int) == 0
        &&& count_out_lab(r.edges, c, Some(false_label()), r.edges.len() as int) == 0
    }
}

/// A placeholder of the raw graph has exactly one outgoing edge, and that
/// edge is unlabeled and leads to a live node.
pub open spec fn placeholder_ok(r: BuilderV, c: nat) -> bool {
    &&& count_out(r.edges, c, r.edges.len() as int) == 1
    &&& forall|i: int|
        0 <= i < r.edges.len() && (#[trigger] r.edges[i]).from == c ==> r.edges[i].label is None
            && r.edges[i].to < r.nodes.len() && live(r.nodes[r.edges[i].to as int])
}

/// The shape the traversal guarantees, beyond well-formedness: the first
/// edge it appends leaves the given predecessor with the pending label and
/// enters the first fresh node (or the exit, for an empty slice), which is
/// live; every other appended edge leaves a fresh node; every fresh
/// condition node gains exactly one `true` and one `false` edge, no other
/// fresh node gains either; and every fresh placeholder has exactly one
/// outgoing edge, unlabeled and entering a live node.
#[verifier::rlimit(100)]
proof fn lemma_build_shape(stmts: Seq<Statement>, exit: nat, from: nat, lab: Option<Seq<char>>, st: BuilderV)
    requires
        st.wf(),
        from < st.nodes.len(),
        exit < st.nodes.len(),
        stmts_wf(stmts),
    ensures
        ({
            let r = build_stmts(stmts, exit, from, lab, st);
            &&& r.wf()
            &&& st.nodes.len() <= r.nodes.len()
            &&& st.edges.len() < r.edges.len()
            &&& forall|i: int| 0 <= i < st.nodes.len() ==> #[trigger] r.nodes[i] == st.nodes[i]
            &&& forall|i: int| 0 <= i < st.edges.len() ==> #[trigger] r.edges[i] == st.edges[i]
            &&& r.edges[st.edges.len() as int] == (EdgeV {
                from,
                to: if stmts.len() == 0 {
                    exit
                } else {
                    st.nodes.len()
                },
                label: lab,
            })
            &&& stmts.len() > 0 ==> live(r.nodes[st.nodes.len() as int])
            &&& forall|i: int|
                st.edges.len() < i < r.edges.len() ==> (#[trigger] r.edges[i]).from
                    >= st.nodes.len()
            &&& forall|c: nat|
                st.nodes.len() <= c < r.nodes.len() ==> #[trigger] cond_counts_ok(r, c)
            &&& forall|c: nat|
                st.nodes.len() <= c < r.nodes.len() && !live(r.nodes[c as int])
                    ==> #[trigger] placeholder_ok(r, c)
        }),
    decreases stmts,
{
    lemma_labels_differ();
    let r = build_stmts(stmts, exit, from, lab, st);
    let tl = Some(true_label());
    let fl = Some(false_label());
    if stmts.len() == 0 {
        assert(forall|c: nat|
            st.nodes.len() <= c < r.nodes.len() ==> #[trigger] cond_counts_ok(r, c));
    } else {
        let rest = stmts.subrange(1, stmts.len() as int);
        assert(stmt_wf(stmts[0]));
        assert(stmts_wf(rest)) by {
            assert forall|i: int| 0 <= i < rest.len() implies stmt_wf(#[trigger] rest[i]) by {
                assert(rest[i] == stmts[i + 1]);
            }
        }
        match stmts[0] {
            Statement::Simple { code, .. } => {
                let id = st.nodes.len();
                let st1 = st.add_node(NodeType::Simple, code@).add_edge(from, id, lab);
                if stmts.len() == 1 {
                    // r == st1.add_edge(id, exit, None)
                    assert forall|i: int|
                        0 <= i < r.edges.len() implies !((#[trigger] r.edges[i]).from == id
                        && r.edges[i].label is Some) by {
                        if i < st.edges.len() as int {
                            assert(r.edges[i] == st.edges[i]);
                        }
                    }
                    assert forall|c: nat| st.nodes.len() <= c < r.nodes.len()
                        implies #[trigger] cond_counts_ok(r, c) by {
                        lemma_count_lab_skip(r.edges, c, tl, 0, r.edges.len() as int);
                        lemma_count_lab_skip(r.edges, c, fl, 0, r.edges.len() as int);
                    }
                } else {
                    lemma_build_shape(rest, exit, id, None, st1);
                    let r2 = build_stmts(rest, exit, id, None, st1);
                    assert(r == r2);
                    // the single edge leaving the fresh simple node is the
                    // unlabeled one into the rest of the slice
                    assert forall|i: int|
                        0 <= i < r.edges.len() implies !((#[trigger] r.edges[i]).from == id
                        && r.edges[i].label is Some) by {
                        if i < st.edges.len() as int {
                            assert(r.edges[i] == st.edges[i]);
                        } else if i < st1.edges.len() as int {
                            assert(r.edges[i] == st1.edges[i]);
                        } else if i == st1.edges.len() as int {
                            assert(r.edges[i].label is None);
                        } else {
                            assert(r.edges[i].from >= st1.nodes.len());
                        }
                    }
                    assert forall|c: nat| st.nodes.len() <= c < r.nodes.len()
                        implies #[trigger] cond_counts_ok(r, c) by {
                        if c == id {
                            lemma_count_lab_skip(r.edges, c, tl, 0, r.edges.len() as int);
                            lemma_count_lab_skip(r.edges, c, fl, 0, r.edges.len() as int);
                        } else {
                            assert(cond_counts_ok(r2, c));
                        }
                    }
                    assert forall|c: nat|
                        st.nodes.len() <= c < r.nodes.len() && !live(r.nodes[c as int])
                        implies #[trigger] placeholder_ok(r, c) by {
                        assert(c != id);
                        assert(placeholder_ok(r2, c));
                    }
                    assert(r.edges[st.edges.len() as int] == st1.edges[st.edges.len() as int]);
                    assert forall|i: int| st.edges.len() < i < r.edges.len() implies (
                    #[trigger] r.edges[i]).from >= st.nodes.len() by {
                        if i == st1.edges.len() as int {
                            assert(r.edges[i].from == id);
                        } else {
                            assert(r.edges[i].from >= st1.nodes.len());
                        }
                    }
                }
            },
            Statement::If { condition, then_branch, else_branch, .. } => {
                let cond = st.nodes.len();
                let st1 = st.add_node(NodeType::Condition, condition@).add_edge(from, cond, lab);
                let merge = if stmts.len() == 1 {
                    exit
                } else {
                    st1.nodes.len()
                };
                let st2 = if stmts.len() == 1 {
                    st1
                } else {
                    st1.add_node(NodeType::Simple, Seq::empty())
                };
                let st3 = if then_branch@.len() == 0 {
                    st2.add_edge(cond, merge, tl)
                } else {
                    lemma_build_shape(then_branch@, merge, cond, tl, st2);
                    build_stmts(then_branch@, merge, cond, tl, st2)
                };
                let st4 = match else_branch {
                    Some(els) => if els@.len() == 0 {
                        st3.add_edge(cond, merge, fl)
                    } else {
                        lemma_build_shape(els@, merge, cond, fl, st3);
                        build_stmts(els@, merge, cond, fl, st3)
                    },
                    None => st3.add_edge(cond, merge, fl),
                };
                if stmts.len() > 1 {
                    lemma_build_shape(rest, exit, merge, None, st4);
                }
                let e0 = st.edges.len() as int;
                let et = st1.edges.len() as int;
                let ete = st3.edges.len() as int;
                let efe = st4.edges.len() as int;
                let ere = r.edges.len() as int;
                // region facts: what each stretch of the appended edges
                // looks like
                assert(forall|i: int| 0 <= i < e0 ==> #[trigger] r.edges[i] == st.edges[i]);
                assert(r.edges[e0] == (EdgeV { from, to: cond, label: lab }));
                assert(r.edges[et].from == cond && r.edges[et].label == tl);
                assert(forall|i: int|
                    et < i < ete ==> (#[trigger] r.edges[i]).from >= st2.nodes.len());
                assert(r.edges[ete].from == cond && r.edges[ete].label == fl);
                assert(forall|i: int|
                    ete < i < efe ==> (#[trigger] r.edges[i]).from >= st3.nodes.len());
                if stmts.len() > 1 {
                    assert(r.edges[efe] == (EdgeV {
                        from: merge,
                        to: st4.nodes.len(),
                        label: None,
                    }));
                    assert(forall|i: int|
                        efe < i < ere ==> (#[trigger] r.edges[i]).from >= st4.nodes.len());
                    assert(live(r.nodes[st4.nodes.len() as int]));
                    assert(st4.nodes.len() < r.nodes.len());
                } else {
                    assert(efe == ere);
                }
                // the goals, node by node
                assert forall|c: nat| st.nodes.len() <= c < r.nodes.len()
                    implies #[trigger] cond_counts_ok(r, c) by {
                    if c == cond {
                        lemma_count_lab_one(r.edges, c, tl, 0, ere, et);
                        lemma_count_lab_one(r.edges, c, fl, 0, ere, ete);
                        assert(r.nodes[c as int].kind == NodeType::Condition);
                    } else if stmts.len() > 1 && c == merge {
                        lemma_count_lab_skip(r.edges, c, tl, 0, ere);
                        lemma_count_lab_skip(r.edges, c, fl, 0, ere);
                        assert(r.nodes[c as int].kind == NodeType::Simple);
                    } else if st2.nodes.len() <= c < st3.nodes.len() {
                        assert(cond_counts_ok(st3, c));
                        lemma_count_congruence(r.edges, st3.edges, c, tl, ete);
                        lemma_count_congruence(r.edges, st3.edges, c, fl, ete);
                        lemma_count_lab_skip(r.edges, c, tl, ete, ere);
                        lemma_count_lab_skip(r.edges, c, fl, ete, ere);
                        assert(r.nodes[c as int] == st3.nodes[c as int]);
                    } else if st3.nodes.len() <= c < st4.nodes.len() {
                        assert(cond_counts_ok(st4, c));
                        lemma_count_congruence(r.edges, st4.edges, c, tl, efe);
                        lemma_count_congruence(r.edges, st4.edges, c, fl, efe);
                        lemma_count_lab_skip(r.edges, c, tl, efe, ere);
                        lemma_count_lab_skip(r.edges, c, fl, efe, ere);
                        assert(r.nodes[c as int] == st4.nodes[c as int]);
                    } else {
                        assert(st4.nodes.len() <= c < r.nodes.len());
                        assert(cond_counts_ok(r, c));
                    }
                }
                assert forall|c: nat|
                    st.nodes.len() <= c < r.nodes.len() && !live(r.nodes[c as int])
                    implies #[trigger] placeholder_ok(r, c) by {
                    if c == cond {
                        assert(live(r.nodes[c as int]));
                    } else if stmts.len() > 1 && c == merge {
                        lemma_count_out_one(r.edges, c, 0, ere, efe);
                        assert forall|i: int|
                            0 <= i < r.edges.len() && (#[trigger] r.edges[i]).from == c
                            implies r.edges[i].label is None && r.edges[i].to < r.nodes.len()
                            && live(r.nodes[r.edges[i].to as int]) by {
                            assert(i == efe);
                        }
                    } else if st2.nodes.len() <= c < st3.nodes.len() {
                        assert(placeholder_ok(st3, c));
                        lemma_count_congruence(r.edges, st3.edges, c, None, ete);
                        lemma_count_skip(r.edges, c, None, ete, ere);
                        assert forall|i: int|
                            0 <= i < r.edges.len() && (#[trigger] r.edges[i]).from == c
                            implies r.edges[i].label is None && r.edges[i].to < r.nodes.len()
                            && live(r.nodes[r.edges[i].to as int]) by {
                            assert(i < ete);
                            assert(r.edges[i] == st3.edges[i]);
                            assert(st3.edges[i].label is None && st3.edges[i].to
                                < st3.nodes.len() && live(st3.nodes[st3.edges[i].to as int]));
                            assert(r.nodes[st3.edges[i].to as int] == st3.nodes[st3.edges[i].to
                                as int]);
                        }
                    } else if st3.nodes.len() <= c < st4.nodes.len() {
                        assert(placeholder_ok(st4, c));
                        lemma_count_congruence(r.edges, st4.edges, c, None, efe);
                        lemma_count_skip(r.edges, c, None, efe, ere);
                        assert forall|i: int|
                            0 <= i < r.edges.len() && (#[trigger] r.edges[i]).from == c
                            implies r.edges[i].label is None && r.edges[i].to < r.nodes.len()
                            && live(r.nodes[r.edges[i].to as int]) by {
                            assert(i < efe);
                            assert(r.edges[i] == st4.edges[i]);
                            assert(st4.edges[i].label is None && st4.edges[i].to
                                < st4.nodes.len() && live(st4.nodes[st4.edges[i].to as int]));
                            assert(r.nodes[st4.edges[i].to as int] == st4.nodes[st4.edges[i].to
                                as int]);
                        }
                    } else {
                        assert(st4.nodes.len() <= c < r.nodes.len());
                        assert(placeholder_ok(r, c));
                    }
                }
                assert forall|i: int| st.edges.len() < i < r.edges.len() implies (
                #[trigger] r.edges[i]).from >= st.nodes.len() by {
                    if i == et {
                    } else if i < ete {
                    } else if i == ete {
                    } else if i < efe {
                    } else if stmts.len() > 1 && i == efe {
                        assert(r.edges[i].from == merge);
                    } else {
                    }
                }
            },
        }
    }
}

/// The traversal leaves existing nodes and edges in place, appends only
/// nodes whose id is their position, and appends only edges between
/// existing nodes; it always appends at least one edge.
proof fn lemma_build_wf(stmts: Seq<Statement>, exit: nat, from: nat, lab: Option<Seq<char>>, st: BuilderV)
    requires
        st.wf(),
        from < st.nodes.len(),
        exit < st.nodes.len(),
    ensures
        ({
            let r = build_stmts(stmts, exit, from, lab, st);
            &&& r.wf()
            &&& st.nodes.len() <= r.nodes.len()
            &&& st.edges.len() < r.edges.len()
            &&& forall|i: int| 0 <= i < st.nodes.len() ==> r.nodes[i] == st.nodes[i]
            &&& forall|i: int| 0 <= i < st.edges.len() ==> r.edges[i] == st.edges[i]
        }),
    decreases stmts,
{
    if stmts.len() == 0 {
    } else {
        let rest = stmts.subrange(1, stmts.len() as int);
        match stmts[0] {
            Statement::Simple { code, .. } => {
                let id = st.nodes.len();
                let st1 = st.add_node(NodeType::Simple, code@).add_edge(from, id, lab);
                if stmts.len() == 1 {
                } else {
                    lemma_build_wf(rest, exit, id, None, st1);
                }
            },
            Statement::If { condition, then_branch, else_branch, .. } => {
                let cond = st.nodes.len();
                let st1 = st.add_node(NodeType::Condition, condition@).add_edge(from, cond, lab);
                let merge = if stmts.len() == 1 {
                    exit
                } else {
                    st1.nodes.len()
                };
                let st2 = if stmts.len() == 1 {
                    st1
                } else {
                    st1.add_node(NodeType::Simple, Seq::empty())
                };
                let st3 = if then_branch@.len() == 0 {
                    st2.add_edge(cond, merge, Some(true_label()))
                } else {
                    lemma_build_wf(then_branch@, merge, cond, Some(true_label()), st2);
                    build_stmts(then_branch@, merge, cond, Some(true_label()), st2)
                };
                let st4 = match else_branch {
                    Some(els) => if els@.len() == 0 {
                        st3.add_edge(cond, merge, Some(false_label()))
                    } else {
                        lemma_build_wf(els@, merge, cond, Some(false_label()), st3);
                        build_stmts(els@, merge, cond, Some(false_label()), st3)
                    },
                    None => st3.add_edge(cond, merge, Some(false_label())),
                };
                if stmts.len() > 1 {
                    lemma_build_wf(rest, exit, merge, None, st4);
                }
            },
        }
    }
}

/// The raw builder state reached for a function is well-formed.
proof fn lemma_raw_state_wf(f: FunctionV)
    ensures
        ({
            let st = BuilderV::empty().add_node(NodeType::Entry, "START: "@ + f.name).add_node(
                NodeType::Exit,
                "END: "@ + f.name,
            );
            let r = build_stmts(f.body, 1, 0, None, st);
            &&& r.wf()
            &&& 2 <= r.nodes.len()
            &&& r.nodes[0] == (NodeV { id: 0, kind: NodeType::Entry, label: "START: "@ + f.name })
            &&& r.nodes[1] == (NodeV { id: 1, kind: NodeType::Exit, label: "END: "@ + f.name })
        }),
{
    let st = BuilderV::empty().add_node(NodeType::Entry, "START: "@ + f.name).add_node(
        NodeType::Exit,
        "END: "@ + f.name,
    );
    lemma_build_wf(f.body, 1, 0, None, st);
}

/// After normalization, node ids are exactly the positions `0 ..
/// nodes.len()`, and every edge endpoint lies in that range.  This holds
/// for every function, whatever its body.
pub proof fn lemma_id_density(f: FunctionV)
    ensures
        forall|j: int|
            0 <= j < build_cfg_spec(f).nodes.len() ==> (#[trigger] build_cfg_spec(
                f,
            ).nodes[j]).id == j,
        forall|j: int|
            0 <= j < build_cfg_spec(f).edges.len() ==> (#[trigger] build_cfg_spec(
                f,
            ).edges[j]).from < build_cfg_spec(f).nodes.len() && build_cfg_spec(f).edges[j].to
                < build_cfg_spec(f).nodes.len(),
{
    let st = BuilderV::empty().add_node(NodeType::Entry, "START: "@ + f.name).add_node(
        NodeType::Exit,
        "END: "@ + f.name,
    );
    let r = build_stmts(f.body, 1, 0, None, st);
    lemma_raw_state_wf(f);
    lemma_norm_nodes_shape(r.nodes, r.nodes.len() as int);
    lemma_norm_edges_in_range(r.nodes, r.edges, r.edges.len() as int);
}

/// No node of the finished graph is a `Simple` node with an empty label:
/// the placeholders the builder allocated are all gone.  This holds for
/// every function, whatever its body.
pub proof fn lemma_no_empty_nodes(f: FunctionV)
    ensures
        forall|j: int|
            0 <= j < build_cfg_spec(f).nodes.len() ==> !((#[trigger] build_cfg_spec(
                f,
            ).nodes[j]).kind == NodeType::Simple && build_cfg_spec(f).nodes[j].label.len() == 0),
{
    let st = BuilderV::empty().add_node(NodeType::Entry, "START: "@ + f.name).add_node(
        NodeType::Exit,
        "END: "@ + f.name,
    );
    let r = build_stmts(f.body, 1, 0, None, st);
    lemma_norm_nodes_shape(r.nodes, r.nodes.len() as int);
}

/// Branch-completeness: in the finished graph of any well-formed function,
/// every condition node has exactly one outgoing edge labeled `true` and
/// exactly one labeled `false` — whether or not either branch body was
/// empty, and whether or not the branches met at a placeholder that
/// normalization removed.
pub proof fn lemma_branch_complete(f: FunctionV)
    requires
        stmts_wf(f.body),
    ensures
        ({
            let g = build_cfg_spec(f);
            forall|j: int|
                0 <= j < g.nodes.len() && (#[trigger] g.nodes[j]).kind == NodeType::Condition
                    ==> count_out_lab(g.edges, j as nat, Some(true_label()), g.edges.len() as int)
                    == 1 && count_out_lab(
                    g.edges,
                    j as nat,
                    Some(false_label()),
                    g.edges.len() as int,
                ) == 1
        }),
{
    lemma_labels_differ();
    let st = BuilderV::empty().add_node(NodeType::Entry, "START: "@ + f.name).add_node(
        NodeType::Exit,
        "END: "@ + f.name,
    );
    let r = build_stmts(f.body, 1, 0, None, st);
    lemma_build_shape(f.body, 1, 0, None, st);
    let g = build_cfg_spec(f);
    assert(g.nodes == norm_nodes(r.nodes, r.nodes.len() as int));
    assert(g.edges == norm_edges(r.nodes, r.edges, r.edges.len() as int));
    // every edge out of a dropped placeholder is unlabeled
    assert forall|i: int|
        0 <= i < r.edges.len() && !live(r.nodes[(#[trigger] r.edges[i]).from as int])
        implies r.edges[i].label is None by {
        let a = r.edges[i].from;
        assert(a < r.nodes.len());
        assert(a >= 2);
        assert(placeholder_ok(r, a));
    }
    // every edge into a dropped placeholder can be rerouted to somewhere
    // live
    assert forall|i: int|
        0 <= i < r.edges.len() && !live(r.nodes[(#[trigger] r.edges[i]).to as int]) implies ({
        let fo = first_out(r.edges, r.edges[i].to, r.edges.len() as int);
        fo is Some && fo->0 < r.nodes.len() && live(r.nodes[fo->0 as int])
    }) by {
        let b = r.edges[i].to;
        assert(b < r.nodes.len());
        assert(b >= 2);
        assert(placeholder_ok(r, b));
        lemma_first_out_some(r.edges, b, r.edges.len() as int);
        lemma_first_out_witness(r.edges, b, r.edges.len() as int);
        let w = choose|w: int|
            0 <= w < r.edges.len() as int && (#[trigger] r.edges[w]).from == b && r.edges[w].to
                == first_out(r.edges, b, r.edges.len() as int)->0;
        assert(r.edges[w].label is None && r.edges[w].to < r.nodes.len() && live(
            r.nodes[r.edges[w].to as int],
        ));
    }
    lemma_norm_nodes_elems(r.nodes, r.nodes.len() as int);
    assert forall|j: int|
        0 <= j < g.nodes.len() && (#[trigger] g.nodes[j]).kind == NodeType::Condition
        implies count_out_lab(g.edges, j as nat, Some(true_label()), g.edges.len() as int) == 1
        && count_out_lab(g.edges, j as nat, Some(false_label()), g.edges.len() as int) == 1 by {
        let c = choose|c: int|
            0 <= c < r.nodes.len() as int && live(#[trigger] r.nodes[c]) && new_id(r.nodes, c)
                == j;
        assert(norm_nodes(r.nodes, r.nodes.len() as int)[new_id(r.nodes, c) as int] == (NodeV {
            id: new_id(r.nodes, c),
            kind: r.nodes[c].kind,
            label: r.nodes[c].label,
        }));
        assert(r.nodes[c].kind == NodeType::Condition);
        assert(c >= 2);
        assert(cond_counts_ok(r, c as nat));
        lemma_norm_count(r.nodes, r.edges, c as nat, Some(true_label()), r.edges.len() as int);
        lemma_norm_count(r.nodes, r.edges, c as nat, Some(false_label()), r.edges.len() as int);
    }
}

/// A body consisting of simple statements only.
pub open spec fn all_simple(stmts: Seq<Statement>) -> bool {
    forall|i: int| 0 <= i < stmts.len() ==> (#[trigger] stmts[i]) is Simple
}

/// The raw graph of a non-empty run of simple statements: one `Simple`
/// node per statement, appended in order, and one chain of edges from the
/// predecessor through every node to the exit, with only the first edge
/// carrying the pending label.
proof fn lemma_build_line(stmts: Seq<Statement>, exit: nat, from: nat, lab: Option<Seq<char>>, st: BuilderV)
    requires
        st.wf(),
        from < st.nodes.len(),
        exit < st.nodes.len(),
        all_simple(stmts),
        stmts.len() > 0,
    ensures
        ({
            let r = build_stmts(stmts, exit, from, lab, st);
            &&& r.nodes.len() == st.nodes.len() + stmts.len()
            &&& forall|i: int| 0 <= i < st.nodes.len() ==> r.nodes[i] == st.nodes[i]
            &&& forall|i: int|
                0 <= i < stmts.len() ==> r.nodes[st.nodes.len() + i] == (NodeV {
                    id: (st.nodes.len() + i) as nat,
                    kind: NodeType::Simple,
                    label: stmts[i]->code@,
                })
            &&& r.edges.len() == st.edges.len() + stmts.len() + 1
            &&& forall|i: int| 0 <= i < st.edges.len() ==> r.edges[i] == st.edges[i]
            &&& forall|k: int|
                0 <= k <= stmts.len() ==> #[trigger] r.edges[st.edges.len() + k] == (EdgeV {
                    from: if k == 0 {
                        from
                    } else {
                        (st.nodes.len() + k - 1) as nat
                    },
                    to: if k == stmts.len() {
                        exit
                    } else {
                        (st.nodes.len() + k) as nat
                    },
                    label: if k == 0 {
                        lab
                    } else {
                        None
                    },
                })
        }),
    decreases stmts,
{
    let r = build_stmts(stmts, exit, from, lab, st);
    let rest = stmts.subrange(1, stmts.len() as int);
    let id = st.nodes.len();
    match stmts[0] {
        Statement::Simple { code, .. } => {
            let st1 = st.add_node(NodeType::Simple, code@).add_edge(from, id, lab);
            if stmts.len() == 1 {
            } else {
                assert(all_simple(rest)) by {
                    assert(forall|i: int|
                        0 <= i < rest.len() ==> (#[trigger] rest[i]) == stmts[i + 1]);
                }
                lemma_build_line(rest, exit, id, None, st1);
                assert forall|i: int| 0 <= i < stmts.len() implies r.nodes[st.nodes.len() + i]
                    == (NodeV {
                    id: (st.nodes.len() + i) as nat,
                    kind: NodeType::Simple,
                    label: stmts[i]->code@,
                }) by {
                    if i > 0 {
                        assert(rest[i - 1] == stmts[i]);
                        assert(r.nodes[st1.nodes.len() + (i - 1)] == (NodeV {
                            id: (st1.nodes.len() + (i - 1)) as nat,
                            kind: NodeType::Simple,
                            label: rest[i - 1]->code@,
                        }));
                    }
                }
                assert forall|k: int| 0 <= k <= stmts.len() implies #[trigger] r.edges[st.edges.len()
                    + k] == (EdgeV {
                    from: if k == 0 {
                        from
                    } else {
                        (st.nodes.len() + k - 1) as nat
                    },
                    to: if k == stmts.len() {
                        exit
                    } else {
                        (st.nodes.len() + k) as nat
                    },
                    label: if k == 0 {
                        lab
                    } else {
                        None
                    },
                }) by {
                    if k == 0 {
                        assert(r.edges[st.edges.len() as int] == st1.edges[st.edges.len() as int]);
                    } else {
                        assert(r.edges[st1.edges.len() + (k - 1)] == (EdgeV {
                            from: if k - 1 == 0 {
                                id
                            } else {
                                (st1.nodes.len() + (k - 1) - 1) as nat
                            },
                            to: if k - 1 == rest.len() {
                                exit
                            } else {
                                (st1.nodes.len() + (k - 1)) as nat
                            },
                            label: None,
                        }));
                    }
                }
            }
        },
        Statement::If { .. } => {
            assert(false);
        },
    }
}

/// When every raw node is live, normalization is the identity: the nodes,
/// the edges, and the designated ids all come through unchanged.
proof fn lemma_norm_identity_nodes(nodes: Seq<NodeV>, k: int)
    requires
        0 <= k <= nodes.len(),
        forall|i: int| 0 <= i < nodes.len() ==> (#[trigger] nodes[i]).id == i,
        forall|i: int| 0 <= i < nodes.len() ==> live(#[trigger] nodes[i]),
    ensures
        norm_nodes(nodes, k) == nodes.subrange(0, k),
    decreases k,
{
    if k > 0 {
        lemma_norm_identity_nodes(nodes, k - 1);
        assert(norm_nodes(nodes, k) =~= nodes.subrange(0, k));
    } else {
        assert(norm_nodes(nodes, k) =~= nodes.subrange(0, k));
    }
}

/// See `lemma_norm_identity_nodes`: the edge pass of an all-live state.
proof fn lemma_norm_identity_edges(nodes: Seq<NodeV>, edges: Seq<EdgeV>, k: int)
    requires
        0 <= k <= edges.len(),
        forall|i: int| 0 <= i < nodes.len() ==> (#[trigger] nodes[i]).id == i,
        forall|i: int| 0 <= i < nodes.len() ==> live(#[trigger] nodes[i]),
        forall|i: int|
            0 <= i < edges.len() ==> (#[trigger] edges[i]).from < nodes.len() && edges[i].to
                < nodes.len(),
    ensures
        norm_edges(nodes, edges, k) == edges.subrange(0, k),
    decreases k,
{
    if k > 0 {
        lemma_norm_identity_edges(nodes, edges, k - 1);
        let e = edges[k - 1];
        lemma_norm_identity_nodes(nodes, e.from as int);
        lemma_norm_identity_nodes(nodes, e.to as int);
        assert(norm_edges(nodes, edges, k) =~= edges.subrange(0, k));
    } else {
        assert(norm_edges(nodes, edges, k) =~= edges.subrange(0, k));
    }
}

/// A body of `n` simple statements yields the single unbranched path
/// through `n` nodes: `n + 2` nodes in creation order and `n + 1`
/// unlabeled edges from entry through every statement to exit.
#[verifier::rlimit(50)]
pub proof fn lemma_straight_line(f: FunctionV)
    requires
        forall|i: int|
            0 <= i < f.body.len() ==> (#[trigger] f.body[i]) is Simple && f.body[i]->code@.len()
                > 0,
    ensures
        ({
            let g = build_cfg_spec(f);
            let n = f.body.len() as int;
            &&& g.nodes.len() == n + 2
            &&& g.nodes[0] == (NodeV { id: 0, kind: NodeType::Entry, label: "START: "@ + f.name })
            &&& g.nodes[1] == (NodeV { id: 1, kind: NodeType::Exit, label: "END: "@ + f.name })
            &&& forall|i: int|
                0 <= i < n ==> g.nodes[2 + i] == (NodeV {
                    id: (2 + i) as nat,
                    kind: NodeType::Simple,
                    label: f.body[i]->code@,
                })
            &&& g.edges.len() == n + 1
            &&& forall|k: int|
                0 <= k <= n ==> g.edges[k] == (EdgeV {
                    from: if k == 0 {
                        0nat
                    } else {
                        (k + 1) as nat
                    },
                    to: if k == n {
                        1nat
                    } else {
                        (k + 2) as nat
                    },
                    label: None::<Seq<char>>,
                })
            &&& g.entry_id == 0
            &&& g.exit_id == 1
        }),
{
    let st = BuilderV::empty().add_node(NodeType::Entry, "START: "@ + f.name).add_node(
        NodeType::Exit,
        "END: "@ + f.name,
    );
    let r = build_stmts(f.body, 1, 0, None, st);
    let g = build_cfg_spec(f);
    let n = f.body.len() as int;
    if n == 0 {
        lemma_empty_body(f);
    } else {
        lemma_build_wf(f.body, 1, 0, None, st);
        lemma_build_line(f.body, 1, 0, None, st);
        assert forall|i: int| 0 <= i < r.nodes.len() implies live(#[trigger] r.nodes[i]) by {
            if i >= 2 {
                assert(r.nodes[st.nodes.len() + (i - 2)] == (NodeV {
                    id: i as nat,
                    kind: NodeType::Simple,
                    label: f.body[i - 2]->code@,
                }));
            }
        }
        lemma_norm_identity_nodes(r.nodes, r.nodes.len() as int);
        lemma_norm_identity_edges(r.nodes, r.edges, r.edges.len() as int);
        assert(norm_nodes(r.nodes, r.nodes.len() as int) =~= r.nodes);
        assert(norm_edges(r.nodes, r.edges, r.edges.len() as int) =~= r.edges);
        lemma_norm_identity_nodes(r.nodes, 0);
        lemma_norm_identity_nodes(r.nodes, 1);
        assert(g.entry_id == 0 && g.exit_id == 1);
        assert forall|k: int| 0 <= k <= n implies g.edges[k] == (EdgeV {
            from: if k == 0 {
                0nat
            } else {
                (k + 1) as nat
            },
            to: if k == n {
                1nat
            } else {
                (k + 2) as nat
            },
            label: None::<Seq<char>>,
        }) by {
            assert(r.edges[st.edges.len() + k] == (EdgeV {
                from: if k == 0 {
                    0nat
                } else {
                    (st.nodes.len() + k - 1) as nat
                },
                to: if k == n {
                    1nat
                } else {
                    (st.nodes.len() + k) as nat
                },
                label: if k == 0 {
                    None::<Seq<char>>
                } else {
                    None::<Seq<char>>
                },
            }));
        }
    }
}

/// An empty body yields exactly the two sentinel nodes and one unlabeled
/// edge from entry to exit.
pub proof fn lemma_empty_body(f: FunctionV)
    requires
        f.body.len() == 0,
    ensures
        ({
            let g = build_cfg_spec(f);
            &&& g.nodes.len() == 2
            &&& g.nodes[0] == (NodeV { id: 0, kind: NodeType::Entry, label: "START: "@ + f.name })
            &&& g.nodes[1] == (NodeV { id: 1, kind: NodeType::Exit, label: "END: "@ + f.name })
            &&& g.edges.len() == 1
            &&& g.edges[0] == (EdgeV { from: 0, to: 1, label: None::<Seq<char>> })
            &&& g.entry_id == 0
            &&& g.exit_id == 1
        }),
{
    let st = BuilderV::empty().add_node(NodeType::Entry, "START: "@ + f.name).add_node(
        NodeType::Exit,
        "END: "@ + f.name,
    );
    let r = build_stmts(f.body, 1, 0, None, st);
    assert(r.nodes.len() == 2);
    assert(r.edges.len() == 1);
    let g = build_cfg_spec(f);
    assert(norm_nodes(r.nodes, 0) =~= Seq::<NodeV>::empty());
    assert(norm_nodes(r.nodes, 1) =~= Seq::<NodeV>::empty().push(
        NodeV { id: 0, kind: NodeType::Entry, label: "START: "@ + f.name },
    ));
    assert(norm_nodes(r.nodes, 2) =~= norm_nodes(r.nodes, 1).push(
        NodeV { id: 1, kind: NodeType::Exit, label: "END: "@ + f.name },
    ));
    assert(g.nodes.len() == 2);
    assert(norm_edges(r.nodes, r.edges, 0) =~= Seq::<EdgeV>::empty());
    assert(norm_edges(r.nodes, r.edges, 1) =~= Seq::<EdgeV>::empty().push(
        EdgeV { from: 0, to: 1, label: None::<Seq<char>> },
    ));
    assert(g.edges.len() == 1);
}

} // verus!
