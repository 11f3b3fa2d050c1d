use cfg_generator::build_cfg;
use cfg_generator::Function;
use cfg_generator::NodeType;
use cfg_generator::Statement;

fn simple(code: &str) -> Statement {
    Statement::Simple {
        code: code.to_string(),
        line: 1,
    }
}

fn branch(
    condition: &str,
    then_branch: Vec<Statement>,
    else_branch: Option<Vec<Statement>>,
) -> Statement {
    Statement::If {
        condition: condition.to_string(),
        then_branch,
        else_branch,
        line: 1,
    }
}

fn func(name: &str, body: Vec<Statement>) -> Function {
    Function {
        name: name.to_string(),
        body,
    }
}

/// An empty body yields exactly Entry, Exit and one unlabeled edge.
#[test]
fn empty_body() {
    let cfg = build_cfg(func("f", vec![]));
    assert_eq!(cfg.nodes.len(), 2);
    assert_eq!(cfg.edges.len(), 1);
    assert!(matches!(cfg.nodes[0].node_type, NodeType::Entry));
    assert!(matches!(cfg.nodes[1].node_type, NodeType::Exit));
    assert_eq!(cfg.nodes[0].label, "START: f");
    assert_eq!(cfg.nodes[1].label, "END: f");
    assert_eq!(cfg.edges[0].from, 0);
    assert_eq!(cfg.edges[0].to, 1);
    assert_eq!(cfg.edges[0].label, None);
    assert_eq!(cfg.entry_id, 0);
    assert_eq!(cfg.exit_id, 1);
}

/// A run of n simple statements yields the single path with n + 2 nodes
/// and n + 1 unlabeled edges.
#[test]
fn straight_line_path() {
    let cfg = build_cfg(func("f", vec![simple("a"), simple("b"), simple("c")]));
    assert_eq!(cfg.nodes.len(), 5);
    assert_eq!(cfg.edges.len(), 4);
    let expected = [(0, 2), (2, 3), (3, 4), (4, 1)];
    for (k, (from, to)) in expected.iter().enumerate() {
        assert_eq!(cfg.edges[k].from, *from);
        assert_eq!(cfg.edges[k].to, *to);
        assert_eq!(cfg.edges[k].label, None);
    }
    assert_eq!(cfg.nodes[2].label, "a");
    assert_eq!(cfg.nodes[3].label, "b");
    assert_eq!(cfg.nodes[4].label, "c");
}

/// A sole conditional with both branches filled: five nodes, and both
/// branch edges lead through their statements to the exit.
#[test]
fn scenario_sole_conditional() {
    let cfg = build_cfg(func(
        "f",
        vec![branch(
            "a > b",
            vec![simple("return a")],
            Some(vec![simple("return b")]),
        )],
    ));
    assert_eq!(cfg.nodes.len(), 5);
    assert_eq!(cfg.nodes[0].label, "START: f");
    assert!(matches!(cfg.nodes[2].node_type, NodeType::Condition));
    assert_eq!(cfg.nodes[2].label, "a > b");
    assert_eq!(cfg.nodes[3].label, "return a");
    assert_eq!(cfg.nodes[4].label, "return b");
    let edges: Vec<(usize, usize, Option<&str>)> = cfg
        .edges
        .iter()
        .map(|e| (e.from, e.to, e.label.as_deref()))
        .collect();
    assert_eq!(edges.len(), 5);
    assert!(edges.contains(&(0, 2, None)));
    assert!(edges.contains(&(2, 3, Some("true"))));
    assert!(edges.contains(&(2, 4, Some("false"))));
    assert!(edges.contains(&(3, 1, None)));
    assert!(edges.contains(&(4, 1, None)));
}

/// The merge scenario: a conditional without an else, followed by a
/// trailing statement.  The placeholder merge node is gone from the node
/// list, yet both branch paths still reach the trailing statement.
#[test]
fn scenario_merge_then_trailing() {
    let cfg = build_cfg(func(
        "f",
        vec![
            branch("cond", vec![simple("s1")], None),
            simple("s2"),
        ],
    ));
    // Entry, Exit, cond, s1, s2 — and no leftover placeholder
    assert_eq!(cfg.nodes.len(), 5);
    for node in &cfg.nodes {
        assert!(!(matches!(node.node_type, NodeType::Simple) && node.label.is_empty()));
    }
    let cond = cfg.nodes.iter().position(|n| n.label == "cond").unwrap();
    let s1 = cfg.nodes.iter().position(|n| n.label == "s1").unwrap();
    let s2 = cfg.nodes.iter().position(|n| n.label == "s2").unwrap();
    let edges: Vec<(usize, usize, Option<&str>)> = cfg
        .edges
        .iter()
        .map(|e| (e.from, e.to, e.label.as_deref()))
        .collect();
    // the true path runs through s1 into s2
    assert!(edges.contains(&(cond, s1, Some("true"))));
    assert!(edges.contains(&(s1, s2, None)));
    // the false edge reaches s2 directly
    assert!(edges.contains(&(cond, s2, Some("false"))));
    // and s2 closes to the exit
    assert!(edges.contains(&(s2, cfg.exit_id, None)));
    assert_eq!(edges.len(), 5);
}

/// Every condition node keeps exactly one true and one false edge, with
/// empty branches, missing elses and else-if chains alike.
#[test]
fn branch_completeness_counts() {
    let cfg = build_cfg(func(
        "f",
        vec![
            branch("a", vec![], None),
            branch(
                "b",
                vec![simple("x")],
                Some(vec![branch("c", vec![simple("y")], Some(vec![]))]),
            ),
            simple("z"),
        ],
    ));
    for node in &cfg.nodes {
        if matches!(node.node_type, NodeType::Condition) {
            let trues = cfg
                .edges
                .iter()
                .filter(|e| e.from == node.id && e.label.as_deref() == Some("true"))
                .count();
            let falses = cfg
                .edges
                .iter()
                .filter(|e| e.from == node.id && e.label.as_deref() == Some("false"))
                .count();
            assert_eq!(trues, 1);
            assert_eq!(falses, 1);
        }
    }
}

/// Node ids are the dense range 0..len, and every edge endpoint lies in
/// it.
#[test]
fn id_density() {
    let cfg = build_cfg(func(
        "f",
        vec![
            branch("a", vec![simple("p")], None),
            simple("q"),
            branch("b", vec![], Some(vec![simple("r")])),
        ],
    ));
    for (i, node) in cfg.nodes.iter().enumerate() {
        assert_eq!(node.id, i);
    }
    for edge in &cfg.edges {
        assert!(edge.from < cfg.nodes.len());
        assert!(edge.to < cfg.nodes.len());
    }
    assert!(cfg.entry_id < cfg.nodes.len());
    assert!(cfg.exit_id < cfg.nodes.len());
}

/// An else-if chain is a conditional as the sole statement of the else
/// branch; each condition still branches two ways.
#[test]
fn else_if_chain() {
    let cfg = build_cfg(func(
        "grade",
        vec![branch(
            "score >= 90",
            vec![simple("return 'A'")],
            Some(vec![branch(
                "score >= 80",
                vec![simple("return 'B'")],
                Some(vec![simple("return 'C'")]),
            )]),
        )],
    ));
    let conds = cfg
        .nodes
        .iter()
        .filter(|n| matches!(n.node_type, NodeType::Condition))
        .count();
    assert_eq!(conds, 2);
    // Entry, Exit, 2 conditions, 3 returns
    assert_eq!(cfg.nodes.len(), 7);
    for node in &cfg.nodes {
        assert!(!(matches!(node.node_type, NodeType::Simple) && node.label.is_empty()));
    }
}

/// A conditional with two empty branches still yields both labeled edges,
/// straight to the merge target.
#[test]
fn empty_branches() {
    let cfg = build_cfg(func("f", vec![branch("flag", vec![], Some(vec![]))]));
    // Entry, Exit, cond — the branches allocate no node
    assert_eq!(cfg.nodes.len(), 3);
    let edges: Vec<(usize, usize, Option<&str>)> = cfg
        .edges
        .iter()
        .map(|e| (e.from, e.to, e.label.as_deref()))
        .collect();
    assert!(edges.contains(&(0, 2, None)));
    assert!(edges.contains(&(2, 1, Some("true"))));
    assert!(edges.contains(&(2, 1, Some("false"))));
    assert_eq!(edges.len(), 3);
}
