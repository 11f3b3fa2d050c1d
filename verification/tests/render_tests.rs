use cfg_generator::build_cfg;
use cfg_generator::render_mermaid;
use cfg_generator::renderer::escape_mermaid;
use cfg_generator::Function;
use cfg_generator::Statement;

fn simple(code: &str) -> Statement {
    Statement::Simple {
        code: code.to_string(),
        line: 1,
    }
}

/// The exact document of the empty-body graph.  The sentinel labels hold
/// a colon, so they come out quoted.
#[test]
fn render_empty_body_exact() {
    let cfg = build_cfg(Function {
        name: "f".to_string(),
        body: vec![],
    });
    let out = render_mermaid(&cfg);
    assert_eq!(
        out,
        "```mermaid\nflowchart TD\n    0([\"START: f\"])\n    1([\"END: f\"])\n    0 --> 1\n```\n"
    );
}

/// The exact document of a one-conditional graph: diamond braces for the
/// condition, labeled edges between pipes.
#[test]
fn render_conditional_exact() {
    let cfg = build_cfg(Function {
        name: "m".to_string(),
        body: vec![Statement::If {
            condition: "a < b".to_string(),
            then_branch: vec![simple("x")],
            else_branch: Some(vec![simple("y")]),
            line: 1,
        }],
    });
    let out = render_mermaid(&cfg);
    let expected = "```mermaid\nflowchart TD\n    0([\"START: m\"])\n    1([\"END: m\"])\n    2{a < b}\n    3[x]\n    4[y]\n    0 --> 2\n    2 -->|true| 3\n    3 --> 1\n    2 -->|false| 4\n    4 --> 1\n```\n";
    assert_eq!(out, expected);
}

/// Ids of ten and above render with all their digits.
#[test]
fn render_two_digit_ids() {
    let body: Vec<Statement> = (0..10).map(|i| simple(&format!("s{}", i))).collect();
    let cfg = build_cfg(Function {
        name: "f".to_string(),
        body,
    });
    // nodes 0..=11: the last statement node has id 11
    assert_eq!(cfg.nodes.len(), 12);
    let out = render_mermaid(&cfg);
    assert!(out.contains("    11[s9]\n"));
    assert!(out.contains("    11 --> 1\n"));
    assert!(out.contains("    10 --> 11\n"));
}

/// A label without structural punctuation passes through unchanged.
#[test]
fn escape_plain() {
    assert_eq!(escape_mermaid("x = y + 1"), "x = y + 1");
}

/// A label with structural punctuation is wrapped in quotes.
#[test]
fn escape_special() {
    assert_eq!(escape_mermaid("f(x);"), "\"f(x);\"");
    assert_eq!(escape_mermaid("a[0] = 1"), "\"a[0] = 1\"");
    assert_eq!(escape_mermaid("k: v"), "\"k: v\"");
}

/// Newlines become spaces and carriage returns disappear before the
/// punctuation check.
#[test]
fn escape_line_breaks() {
    assert_eq!(escape_mermaid("a\nb"), "a b");
    assert_eq!(escape_mermaid("a\r\nb"), "a b");
    assert_eq!(escape_mermaid("a\rb"), "ab");
}

/// Double quotes inside a quoted label are removed.
#[test]
fn escape_inner_quotes() {
    assert_eq!(escape_mermaid("say \"hi\";"), "\"say hi;\"");
    // without punctuation the quotes stay, since no wrapping happens
    assert_eq!(escape_mermaid("say \"hi\""), "say \"hi\"");
}
