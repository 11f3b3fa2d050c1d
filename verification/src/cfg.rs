//! Control-flow graph construction.
//!
//! A `CFGBuilder` turns one function's statement sequence into a raw graph
//! by a single recursive traversal, then a normalization pass removes the
//! placeholder merge nodes the traversal allocated and compacts node ids
//! into a dense range.
//!
//! The whole construction is specified by a functional model: `build_stmts`
//! describes the raw graph the traversal emits, and `normalize_spec`
//! describes the finished graph.  Every executable step is proved equal to
//! the model.

use vstd::prelude::*;

use crate::statement::Function;
use crate::statement::FunctionV;
use crate::statement::Statement;

verus! {

/// The kind of a node: the distinguished entry and exit sentinels, a
/// straight-line statement, or a two-way branch test.
#[derive(Debug, Clone, Copy, PartialEq, Eq, Structural)]
pub enum NodeType {
    Entry,
    Exit,
    Simple,
    Condition,
}

/// One node of the graph: its id, kind, and display label.
#[derive(Debug)]
pub struct CFGNode {
    pub id: usize,
    pub node_type: NodeType,
    pub label: String,
}

/// One directed edge, with an optional label; a label is only ever the
/// branch mark `"true"` or `"false"`.
#[derive(Debug)]
pub struct CFGEdge {
    pub from: usize,
    pub to: usize,
    pub label: Option<String>,
}

/// The finished, read-only graph: dense node ids, edges between them, and
/// the designated entry and exit nodes.
#[derive(Debug)]
pub struct ControlFlowGraph {
    pub nodes: Vec<CFGNode>,
    pub edges: Vec<CFGEdge>,
    pub entry_id: usize,
    pub exit_id: usize,
}

/// The mathematical value of a node.
#[verifier::ext_equal]
pub struct NodeV {
    pub id: nat,
    pub kind: NodeType,
    pub label: Seq<char>,
}

/// The mathematical value of an edge.
#[verifier::ext_equal]
pub struct EdgeV {
    pub from: nat,
    pub to: nat,
    pub label: Option<Seq<char>>,
}

/// The mathematical value of a finished graph.
#[verifier::ext_equal]
pub struct GraphV {
    pub nodes: Seq<NodeV>,
    pub edges: Seq<EdgeV>,
    pub entry_id: nat,
    pub exit_id: nat,
}

impl View for CFGNode {
    type V = NodeV;

    open spec fn view(&self) -> NodeV {
        NodeV { id: self.id as nat, kind: self.node_type, label: self.label@ }
    }
}

/// The view of an optional edge label.
pub open spec fn label_view(label: Option<String>) -> Option<Seq<char>> {
    match label {
        Some(s) => Some(s@),
        None => None,
    }
}

impl View for CFGEdge {
    type V = EdgeV;

    open spec fn view(&self) -> EdgeV {
        EdgeV { from: self.from as nat, to: self.to as nat, label: label_view(self.label) }
    }
}

impl View for ControlFlowGraph {
    type V = GraphV;

    open spec fn view(&self) -> GraphV {
        GraphV {
            nodes: self.nodes@.map_values(|n: CFGNode| n@),
            edges: self.edges@.map_values(|e: CFGEdge| e@),
            entry_id: self.entry_id as nat,
            exit_id: self.exit_id as nat,
        }
    }
}

/// The working state of a builder: the nodes and edges accumulated so far.
/// A node's id is its position in creation order, so the next fresh id is
/// always `nodes.len()`.
#[verifier::ext_equal]
pub struct BuilderV {
    pub nodes: Seq<NodeV>,
    pub edges: Seq<EdgeV>,
}

impl BuilderV {
    /// The state with no nodes and no edges.
    pub open spec fn empty() -> BuilderV {
        BuilderV { nodes: Seq::empty(), edges: Seq::empty() }
    }

    /// Append one node, giving it the next fresh id.
    pub open spec fn add_node(self, kind: NodeType, label: Seq<char>) -> BuilderV {
        BuilderV {
            nodes: self.nodes.push(NodeV { id: self.nodes.len(), kind, label }),
            edges: self.edges,
        }
    }

    /// Append one edge.
    pub open spec fn add_edge(self, from: nat, to: nat, label: Option<Seq<char>>) -> BuilderV {
        BuilderV { nodes: self.nodes, edges: self.edges.push(EdgeV { from, to, label }) }
    }

    /// Every node's id is its position, and every edge endpoint refers to an
    /// existing node.
    pub open spec fn wf(self) -> bool {
        &&& forall|i: int|
            0 <= i < self.nodes.len() ==> (#[trigger] self.nodes[i]).id == i
        &&& forall|i: int|
            0 <= i < self.edges.len() ==> (#[trigger] self.edges[i]).from < self.nodes.len()
                && self.edges[i].to < self.nodes.len()
    }
}

/// The label of the edge taken when a condition holds.
pub open spec fn true_label() -> Seq<char> {
    "true"@
}

/// The label of the edge taken when a condition fails.
pub open spec fn false_label() -> Seq<char> {
    "false"@
}

/// The raw graph that one recursive traversal step emits, starting from
/// state `st`.  The statement slice is wired between the node `from` and
/// the node `exit`; `lab` is the pending branch label, carried by exactly
/// the first edge the step creates.
///
/// - An empty slice becomes a single edge `from -> exit`.
/// - A simple statement becomes a `Simple` node; the rest of the slice
///   continues from it, or an unlabeled edge closes it to `exit`.
/// - A conditional becomes a `Condition` node; both branches are wired from
///   it to a merge target, which is `exit` when the conditional ends the
///   slice and a fresh placeholder node otherwise.  An empty branch becomes
///   a direct labeled edge to the merge target.
pub open spec fn build_stmts(
    stmts: Seq<Statement>,
    exit: nat,
    from: nat,
    lab: Option<Seq<char>>,
    st: BuilderV,
) -> BuilderV
    decreases stmts,
{
    if stmts.len() == 0 {
        st.add_edge(from, exit, lab)
    } else {
        let rest = stmts.subrange(1, stmts.len() as int);
        match stmts[0] {
            Statement::Simple { code, .. } => {
                let id = st.nodes.len();
                let st1 = st.add_node(NodeType::Simple, code@).add_edge(from, id, lab);
                if stmts.len() == 1 {
                    st1.add_edge(id, exit, None)
                } else {
                    build_stmts(rest, exit, id, None, st1)
                }
            },
            Statement::If { condition, then_branch, else_branch, .. } => {
                let cond = st.nodes.len();
                let st1 = st.add_node(NodeType::Condition, condition@).add_edge(from, cond, lab);
                let merge = if stmts.len() == 1 {
                    exit
                } else {
                    st1.nodes.len()
                };
                let st2 = if stmts.len() == 1 {
                    st1
                } else {
                    st1.add_node(NodeType::Simple, Seq::empty())
                };
                let st3 = if then_branch@.len() == 0 {
                    st2.add_edge(cond, merge, Some(true_label()))
                } else {
                    build_stmts(then_branch@, merge, cond, Some(true_label()), st2)
                };
                let st4 = match else_branch {
                    Some(els) => if els@.len() == 0 {
                        st3.add_edge(cond, merge, Some(false_label()))
                    } else {
                        build_stmts(els@, merge, cond, Some(false_label()), st3)
                    },
                    None => st3.add_edge(cond, merge, Some(false_label())),
                };
                if stmts.len() > 1 {
                    build_stmts(rest, exit, merge, None, st4)
                } else {
                    st4
                }
            },
        }
    }
}

/// A node survives normalization unless it is a placeholder: kind `Simple`
/// with an empty label, allocated by the builder purely as a merge anchor.
pub open spec fn live(n: NodeV) -> bool {
    !(n.kind == NodeType::Simple && n.label.len() == 0)
}

/// The nodes of the finished graph drawn from the first `k` raw nodes:
/// placeholders dropped, the survivors renumbered densely in order.
pub open spec fn norm_nodes(nodes: Seq<NodeV>, k: int) -> Seq<NodeV>
    decreases k,
{
    if k <= 0 {
        Seq::empty()
    } else {
        let prev = norm_nodes(nodes, k - 1);
        if live(nodes[k - 1]) {
            prev.push(NodeV { id: prev.len(), kind: nodes[k - 1].kind, label: nodes[k - 1].label })
        } else {
            prev
        }
    }
}

/// The id raw node `i` carries after normalization: the number of live
/// nodes that precede it.
pub open spec fn new_id(nodes: Seq<NodeV>, i: int) -> nat {
    norm_nodes(nodes, i).len()
}

/// The target of the first edge leaving node `a`, among the first `k` edges.
pub open spec fn first_out(edges: Seq<EdgeV>, a: nat, k: int) -> Option<nat>
    decreases k,
{
    if k <= 0 {
        None
    } else {
        let prev = first_out(edges, a, k - 1);
        if prev is Some {
            prev
        } else if edges[k - 1].from == a {
            Some(edges[k - 1].to)
        } else {
            None
        }
    }
}

/// Where an edge into raw node `b` points after normalization: to `b`
/// itself if `b` survives; otherwise through the placeholder to the target
/// of its first outgoing edge, provided that target survives.  A placeholder
/// is thus contracted, not cut out: the paths that met at it stay connected
/// to what followed it.
pub open spec fn route(nodes: Seq<NodeV>, edges: Seq<EdgeV>, b: nat) -> Option<nat> {
    if b < nodes.len() && live(nodes[b as int]) {
        Some(new_id(nodes, b as int))
    } else {
        match first_out(edges, b, edges.len() as int) {
            Some(s) => if s < nodes.len() && live(nodes[s as int]) {
                Some(new_id(nodes, s as int))
            } else {
                None
            },
            None => None,
        }
    }
}

/// The edges of the finished graph drawn from the first `k` raw edges.  An
/// edge leaving a placeholder is dropped — its role is taken over by the
/// edges that entered the placeholder, which are redirected to the
/// placeholder's successor; every other edge keeps its label and gets its
/// endpoints renumbered.
pub open spec fn norm_edges(nodes: Seq<NodeV>, edges: Seq<EdgeV>, k: int) -> Seq<EdgeV>
    decreases k,
{
    if k <= 0 {
        Seq::empty()
    } else {
        let prev = norm_edges(nodes, edges, k - 1);
        let e = edges[k - 1];
        if e.from < nodes.len() && live(nodes[e.from as int]) {
            match route(nodes, edges, e.to) {
                Some(t) => prev.push(
                    EdgeV { from: new_id(nodes, e.from as int), to: t, label: e.label },
                ),
                None => prev,
            }
        } else {
            prev
        }
    }
}

/// The id a designated node carries after normalization; one that was
/// dropped, or never existed, keeps its raw id.
pub open spec fn map_id(nodes: Seq<NodeV>, id: nat) -> nat {
    if id < nodes.len() && live(nodes[id as int]) {
        new_id(nodes, id as int)
    } else {
        id as nat
    }
}

/// The finished graph obtained from a raw builder state.
pub open spec fn normalize_spec(st: BuilderV, entry: nat, exit: nat) -> GraphV {
    GraphV {
        nodes: norm_nodes(st.nodes, st.nodes.len() as int),
        edges: norm_edges(st.nodes, st.edges, st.edges.len() as int),
        entry_id: map_id(st.nodes, entry),
        exit_id: map_id(st.nodes, exit),
    }
}

/// The view of an entry of the successor table.
pub open spec fn opt_nat(o: Option<usize>) -> Option<nat> {
    match o {
        Some(u) => Some(u as nat),
        None => None,
    }
}

/// A `Some` answer of `first_out` names the target of some edge of the
/// list, so under well-formedness it stays below the node count.
proof fn lemma_first_out_in_range(edges: Seq<EdgeV>, a: nat, k: int, n: nat)
    requires
        k <= edges.len(),
        forall|i: int| 0 <= i < edges.len() ==> (#[trigger] edges[i]).to < n,
        first_out(edges, a, k) is Some,
    ensures
        first_out(edges, a, k)->0 < n,
    decreases k,
{
    if k > 0 && first_out(edges, a, k - 1) is Some {
        lemma_first_out_in_range(edges, a, k - 1, n);
    }
}

/// The builder: a fresh-id counter and the accumulating node and edge
/// lists.  One builder instance serves exactly one function.
pub struct CFGBuilder {
    next_id: usize,
    nodes: Vec<CFGNode>,
    edges: Vec<CFGEdge>,
}

impl View for CFGBuilder {
    type V = BuilderV;

    closed spec fn view(&self) -> BuilderV {
        BuilderV {
            nodes: self.nodes@.map_values(|n: CFGNode| n@),
            edges: self.edges@.map_values(|e: CFGEdge| e@),
        }
    }
}

impl CFGBuilder {
    /// The counter always holds the next fresh id, `nodes.len()`.
    pub closed spec fn wf(&self) -> bool {
        &&& self.next_id == self.nodes@.len()
        &&& self@.wf()
    }

    fn new() -> (r: CFGBuilder)
        ensures
            r@ == BuilderV::empty(),
            r.wf(),
    {
        let r = CFGBuilder { next_id: 0, nodes: Vec::new(), edges: Vec::new() };
        proof {
            assert(r@.nodes =~= Seq::<NodeV>::empty());
            assert(r@.edges =~= Seq::<EdgeV>::empty());
            assert(r@ =~= BuilderV::empty());
        }
        r
    }

    fn add_node(&mut self, node_type: NodeType, label: String) -> (id: usize)
        requires
            old(self).wf(),
        ensures
            final(self).wf(),
            final(self)@ == old(self)@.add_node(node_type, label@),
            id == old(self)@.nodes.len(),
    {
        let id = self.next_id;
        self.nodes.push(CFGNode { id, node_type, label });
        self.next_id = self.nodes.len();
        proof {
            assert(self@.nodes =~= old(self)@.add_node(node_type, label@).nodes);
            assert(self@ =~= old(self)@.add_node(node_type, label@));
        }
        id
    }

    fn add_edge(&mut self, from: usize, to: usize, label: Option<String>)
        requires
            old(self).wf(),
            from < old(self)@.nodes.len(),
            to < old(self)@.nodes.len(),
        ensures
            final(self).wf(),
            final(self)@ == old(self)@.add_edge(from as nat, to as nat, label_view(label)),
    {
        let ghost lv = label_view(label);
        self.edges.push(CFGEdge { from, to, label });
        proof {
            assert(self@.edges =~= old(self)@.add_edge(from as nat, to as nat, lv).edges);
            assert(self@ =~= old(self)@.add_edge(from as nat, to as nat, lv));
        }
    }

    /// The recursive traversal, with a pending branch label for the first
    /// edge it creates.
    fn build_statements_with_edge(
        &mut self,
        statements: &[Statement],
        exit: usize,
        from: usize,
        edge_label: Option<String>,
    )
        requires
            old(self).wf(),
            from < old(self)@.nodes.len(),
            exit < old(self)@.nodes.len(),
        ensures
            final(self).wf(),
            old(self)@.nodes.len() <= final(self)@.nodes.len(),
            final(self)@ == build_stmts(
                statements@,
                exit as nat,
                from as nat,
                label_view(edge_label),
                old(self)@,
            ),
        decreases statements@, 0nat,
    {
        if statements.len() == 0 {
            self.add_edge(from, exit, edge_label);
            return ;
        }
        let stmt = vstd::slice::slice_index_get(statements, 0);
        match stmt {
            Statement::Simple { code, .. } => {
                let first_id = self.add_node(NodeType::Simple, code.clone());
                self.add_edge(from, first_id, edge_label);
                if statements.len() == 1 {
                    self.add_edge(first_id, exit, None);
                } else {
                    let rest = vstd::slice::slice_subrange(statements, 1, statements.len());
                    self.build_statements(rest, first_id, exit);
                }
            },
            Statement::If { condition, then_branch, else_branch, .. } => {
                let cond_id = self.add_node(NodeType::Condition, condition.clone());
                self.add_edge(from, cond_id, edge_label);
                let merge_id = if statements.len() == 1 {
                    exit
                } else {
                    self.add_node(NodeType::Simple, String::new())
                };
                if then_branch.len() == 0 {
                    self.add_edge(cond_id, merge_id, Some("true".to_owned()));
                } else {
                    self.build_statements_with_edge(
                        then_branch.as_slice(),
                        merge_id,
                        cond_id,
                        Some("true".to_owned()),
                    );
                }
                match else_branch {
                    Some(else_stmts) => {
                        if else_stmts.len() == 0 {
                            self.add_edge(cond_id, merge_id, Some("false".to_owned()));
                        } else {
                            self.build_statements_with_edge(
                                else_stmts.as_slice(),
                                merge_id,
                                cond_id,
                                Some("false".to_owned()),
                            );
                        }
                    },
                    None => {
                        self.add_edge(cond_id, merge_id, Some("false".to_owned()));
                    },
                }
                if statements.len() > 1 {
                    let rest = vstd::slice::slice_subrange(statements, 1, statements.len());
                    self.build_statements(rest, merge_id, exit);
                }
            },
        }
    }

    /// The traversal entered without a pending branch label: the slice is
    /// wired between `entry` and `exit` with plain edges.
    fn build_statements(&mut self, statements: &[Statement], entry: usize, exit: usize)
        requires
            old(self).wf(),
            entry < old(self)@.nodes.len(),
            exit < old(self)@.nodes.len(),
        ensures
            final(self).wf(),
            old(self)@.nodes.len() <= final(self)@.nodes.len(),
            final(self)@ == build_stmts(statements@, exit as nat, entry as nat, None, old(self)@),
        decreases statements@, 1nat,
    {
        self.build_statements_with_edge(statements, exit, entry, None);
    }

    /// The normalization pass: drop the placeholder merge nodes, renumber
    /// the survivors densely, and translate the edges.  An edge that
    /// pointed into a placeholder is redirected to the placeholder's
    /// successor, so the branch paths that met there stay connected to the
    /// code that followed; the placeholder's own outgoing edge is dropped.
    fn build(self, entry_id: usize, exit_id: usize) -> (g: ControlFlowGraph)
        requires
            self.wf(),
        ensures
            g@ == normalize_spec(self@, entry_id as nat, exit_id as nat),
    {
        let nodes_len = self.nodes.len();

        // First pass over the nodes: keep the live ones, renumbered in
        // order, and record the old-to-new id table.
        let mut id_map: Vec<Option<usize>> = Vec::new();
        let mut new_nodes: Vec<CFGNode> = Vec::new();
        let mut i: usize = 0;
        while i < nodes_len
            invariant
                self.wf(),
                nodes_len == self@.nodes.len(),
                i <= nodes_len,
                id_map@.len() == i,
                new_nodes@.map_values(|n: CFGNode| n@) == norm_nodes(self@.nodes, i as int),
                forall|k: int|
                    0 <= k < i ==> opt_nat(#[trigger] id_map@[k]) == (if live(self@.nodes[k]) {
                        Some(new_id(self@.nodes, k))
                    } else {
                        None::<nat>
                    }),
            decreases nodes_len - i,
        {
            let node = &self.nodes[i];
            if node.node_type == NodeType::Simple && node.label.as_str().is_empty() {
                id_map.push(None);
            } else {
                let fresh = new_nodes.len();
                new_nodes.push(
                    CFGNode { id: fresh, node_type: node.node_type, label: node.label.clone() },
                );
                id_map.push(Some(fresh));
            }
            i += 1;
            proof {
                assert(new_nodes@.map_values(|n: CFGNode| n@) =~= norm_nodes(
                    self@.nodes,
                    i as int,
                ));
            }
        }

        // Record each node's successor: the target of its first outgoing
        // edge.  Only the entries of dropped placeholders are consulted.
        let mut succ: Vec<Option<usize>> = Vec::new();
        while succ.len() < nodes_len
            invariant
                succ@.len() <= nodes_len,
                forall|a: int| 0 <= a < succ@.len() ==> #[trigger] succ@[a] is None,
            decreases nodes_len - succ@.len(),
        {
            succ.push(None);
        }
        let edges_len = self.edges.len();
        let mut j: usize = 0;
        while j < edges_len
            invariant
                self.wf(),
                nodes_len == self@.nodes.len(),
                edges_len == self@.edges.len(),
                j <= edges_len,
                succ@.len() == nodes_len,
                forall|a: nat|
                    a < nodes_len ==> opt_nat(#[trigger] succ@[a as int]) == first_out(
                        self@.edges,
                        a,
                        j as int,
                    ),
            decreases edges_len - j,
        {
            let from = self.edges[j].from;
            let to = self.edges[j].to;
            assert(self@.edges[j as int].from < nodes_len);
            if succ[from].is_none() {
                succ.set(from, Some(to));
            }
            j += 1;
        }

        // Second pass over the edges: translate the endpoints through the
        // id table, rerouting targets through dropped placeholders.
        let mut new_edges: Vec<CFGEdge> = Vec::new();
        let mut j: usize = 0;
        while j < edges_len
            invariant
                self.wf(),
                nodes_len == self@.nodes.len(),
                edges_len == self@.edges.len(),
                j <= edges_len,
                id_map@.len() == nodes_len,
                succ@.len() == nodes_len,
                forall|k: int|
                    0 <= k < nodes_len ==> opt_nat(#[trigger] id_map@[k]) == (if live(
                        self@.nodes[k],
                    ) {
                        Some(new_id(self@.nodes, k))
                    } else {
                        None::<nat>
                    }),
                forall|a: nat|
                    a < nodes_len ==> opt_nat(#[trigger] succ@[a as int]) == first_out(
                        self@.edges,
                        a,
                        edges_len as int,
                    ),
                new_edges@.map_values(|e: CFGEdge| e@) == norm_edges(
                    self@.nodes,
                    self@.edges,
                    j as int,
                ),
            decreases edges_len - j,
        {
            let e = &self.edges[j];
            assert(self@.edges[j as int].from < nodes_len && self@.edges[j as int].to
                < nodes_len);
            if let Some(nf) = id_map[e.from] {
                let target: Option<usize> = match id_map[e.to] {
                    Some(nt) => Some(nt),
                    None => match succ[e.to] {
                        Some(s) => {
                            proof {
                                lemma_first_out_in_range(
                                    self@.edges,
                                    e.to as nat,
                                    edges_len as int,
                                    nodes_len as nat,
                                );
                            }
                            id_map[s]
                        },
                        None => None,
                    },
                };
                if let Some(nt) = target {
                    let lab = match &e.label {
                        Some(s) => Some(s.clone()),
                        None => None,
                    };
                    new_edges.push(CFGEdge { from: nf, to: nt, label: lab });
                }
            }
            j += 1;
            proof {
                assert(new_edges@.map_values(|e2: CFGEdge| e2@) =~= norm_edges(
                    self@.nodes,
                    self@.edges,
                    j as int,
                ));
            }
        }

        // The designated entry and exit ids follow the same table, keeping
        // their raw id if the table does not know them.
        let final_entry = if entry_id < nodes_len {
            match id_map[entry_id] {
                Some(x) => x,
                None => entry_id,
            }
        } else {
            entry_id
        };
        let final_exit = if exit_id < nodes_len {
            match id_map[exit_id] {
                Some(x) => x,
                None => exit_id,
            }
        } else {
            exit_id
        };
        let g = ControlFlowGraph {
            nodes: new_nodes,
            edges: new_edges,
            entry_id: final_entry,
            exit_id: final_exit,
        };
        proof {
            assert(g@ =~= normalize_spec(self@, entry_id as nat, exit_id as nat));
        }
        g
    }
}

} // verus!

verus! {

/// The graph that `build_cfg` produces for a function: the entry node
/// labeled `START: name` and the exit node labeled `END: name` are created
/// first, the body is wired between them, and the result is normalized.
pub open spec fn build_cfg_spec(f: FunctionV) -> GraphV {
    let st = BuilderV::empty().add_node(NodeType::Entry, "START: "@ + f.name).add_node(
        NodeType::Exit,
        "END: "@ + f.name,
    );
    normalize_spec(build_stmts(f.body, 1, 0, None, st), 0, 1)
}

/// Build the finished control-flow graph of one function.
pub fn build_cfg(function: Function) -> (g: ControlFlowGraph)
    ensures
        g@ == build_cfg_spec(function@),
{
    let mut builder = CFGBuilder::new();
    let mut entry_label = "START: ".to_owned();
    entry_label.append(function.name.as_str());
    let mut exit_label = "END: ".to_owned();
    exit_label.append(function.name.as_str());
    let entry = builder.add_node(NodeType::Entry, entry_label);
    let exit = builder.add_node(NodeType::Exit, exit_label);
    builder.build_statements(function.body.as_slice(), entry, exit);
    builder.build(entry, exit)
}

} // verus!
