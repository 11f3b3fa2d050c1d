//! Rendering a finished graph as a mermaid flowchart.
//!
//! Every piece of the output text is specified as a character sequence:
//! the decimal form of node ids, the escaping of labels, the line for each
//! node and edge, and the document that strings them together.

use vstd::prelude::*;

use crate::cfg::CFGEdge;
use crate::cfg::CFGNode;
use crate::cfg::ControlFlowGraph;
use crate::cfg::EdgeV;
use crate::cfg::GraphV;
use crate::cfg::NodeType;
use crate::cfg::NodeV;

verus! {

/// The character of one decimal digit.
pub open spec fn digit_char(d: nat) -> char {
    if d == 0 {
        '0'
    } else if d == 1 {
        '1'
    } else if d == 2 {
        '2'
    } else if d == 3 {
        '3'
    } else if d == 4 {
        '4'
    } else if d == 5 {
        '5'
    } else if d == 6 {
        '6'
    } else if d == 7 {
        '7'
    } else if d == 8 {
        '8'
    } else {
        '9'
    }
}

/// The decimal form of a number, most significant digit first.
pub open spec fn dec_digits(n: nat) -> Seq<char>
    decreases n,
{
    if n < 10 {
        seq![digit_char(n)]
    } else {
        dec_digits(n / 10).push(digit_char(n % 10))
    }
}

/// Label cleaning, one character at a time: a newline becomes a space, a
/// carriage return disappears, everything else stays.
pub open spec fn clean_char(c: char) -> Seq<char> {
    if c == '\n' {
        seq![' ']
    } else if c == '\r' {
        Seq::empty()
    } else {
        seq![c]
    }
}

/// A label with newlines turned to spaces and carriage returns removed.
pub open spec fn cleaned(s: Seq<char>) -> Seq<char>
    decreases s.len(),
{
    if s.len() == 0 {
        Seq::empty()
    } else {
        cleaned(s.drop_last()) + clean_char(s.last())
    }
}

/// The characters that force a label into quotes in the flowchart
/// notation.
pub open spec fn is_special(c: char) -> bool {
    c == ';' || c == '*' || c == '(' || c == ')' || c == '[' || c == ']' || c == '{' || c == '}'
        || c == ',' || c == ':'
}

/// Whether any character of the cleaned label is special.
pub open spec fn has_special(s: Seq<char>) -> bool {
    exists|i: int| 0 <= i < s.len() && is_special(s[i])
}

/// The label with every double quote removed.
pub open spec fn strip_quotes(s: Seq<char>) -> Seq<char>
    decreases s.len(),
{
    if s.len() == 0 {
        Seq::empty()
    } else {
        strip_quotes(s.drop_last()) + (if s.last() == '"' {
            Seq::empty()
        } else {
            seq![s.last()]
        })
    }
}

/// A label as it appears in the output: cleaned, and wrapped in double
/// quotes (its own quotes removed) when it holds structural punctuation.
pub open spec fn escape_spec(s: Seq<char>) -> Seq<char> {
    let c = cleaned(s);
    if has_special(c) {
        seq!['"'] + strip_quotes(c) + seq!['"']
    } else {
        c
    }
}

/// The output line of one node; a leftover empty `Simple` label renders as
/// nothing.
pub open spec fn node_text(n: NodeV) -> Seq<char> {
    match n.kind {
        NodeType::Entry => "    "@ + dec_digits(n.id) + "(["@ + escape_spec(n.label) + "])\n"@,
        NodeType::Exit => "    "@ + dec_digits(n.id) + "(["@ + escape_spec(n.label) + "])\n"@,
        NodeType::Condition => "    "@ + dec_digits(n.id) + "{"@ + escape_spec(n.label) + "}\n"@,
        NodeType::Simple => if n.label.len() > 0 {
            "    "@ + dec_digits(n.id) + "["@ + escape_spec(n.label) + "]\n"@
        } else {
            Seq::empty()
        },
    }
}

/// The output lines of the first `k` nodes.
pub open spec fn nodes_text(nodes: Seq<NodeV>, k: int) -> Seq<char>
    decreases k,
{
    if k <= 0 {
        Seq::empty()
    } else {
        nodes_text(nodes, k - 1) + node_text(nodes[k - 1])
    }
}

/// The output line of one edge, with its label between pipes when it has
/// one.
pub open spec fn edge_text(e: EdgeV) -> Seq<char> {
    match e.label {
        Some(l) => "    "@ + dec_digits(e.from) + " -->|"@ + l + "| "@ + dec_digits(e.to) + "\n"@,
        None => "    "@ + dec_digits(e.from) + " --> "@ + dec_digits(e.to) + "\n"@,
    }
}

/// The output lines of the first `k` edges.
pub open spec fn edges_text(edges: Seq<EdgeV>, k: int) -> Seq<char>
    decreases k,
{
    if k <= 0 {
        Seq::empty()
    } else {
        edges_text(edges, k - 1) + edge_text(edges[k - 1])
    }
}

/// The whole flowchart document of a graph.
pub open spec fn render_spec(g: GraphV) -> Seq<char> {
    "```mermaid\nflowchart TD\n"@ + nodes_text(g.nodes, g.nodes.len() as int) + edges_text(
        g.edges,
        g.edges.len() as int,
    ) + "```\n"@
}

/// Relies on `String::from_iter` over characters: the collected string
/// holds exactly the characters of the vector, in order.
#[verifier::external_body]
fn string_from_chars(v: Vec<char>) -> (r: String)
    ensures
        r@ == v@,
{
    v.into_iter().collect()
}

/// Append every character of a string slice.
fn append_str(out: &mut Vec<char>, s: &str)
    ensures
        final(out)@ == old(out)@ + s@,
{
    let n = s.unicode_len();
    let mut i: usize = 0;
    while i < n
        invariant
            i <= n,
            n == s@.len(),
            out@ == old(out)@ + s@.subrange(0, i as int),
        decreases n - i,
    {
        let c = s.get_char(i);
        out.push(c);
        i += 1;
        proof {
            assert(out@ =~= old(out)@ + s@.subrange(0, i as int));
        }
    }
    proof {
        assert(old(out)@ + s@.subrange(0, n as int) =~= old(out)@ + s@);
    }
}

/// Append every character of another vector.
fn append_chars(out: &mut Vec<char>, s: &Vec<char>)
    ensures
        final(out)@ == old(out)@ + s@,
{
    let n = s.len();
    let mut i: usize = 0;
    while i < n
        invariant
            i <= n,
            n == s@.len(),
            out@ == old(out)@ + s@.subrange(0, i as int),
        decreases n - i,
    {
        out.push(s[i]);
        i += 1;
        proof {
            assert(out@ =~= old(out)@ + s@.subrange(0, i as int));
        }
    }
    proof {
        assert(old(out)@ + s@.subrange(0, n as int) =~= old(out)@ + s@);
    }
}

/// The character of one digit, executably.
fn digit_char_exec(d: usize) -> (c: char)
    requires
        d < 10,
    ensures
        c == digit_char(d as nat),
{
    if d == 0 {
        '0'
    } else if d == 1 {
        '1'
    } else if d == 2 {
        '2'
    } else if d == 3 {
        '3'
    } else if d == 4 {
        '4'
    } else if d == 5 {
        '5'
    } else if d == 6 {
        '6'
    } else if d == 7 {
        '7'
    } else if d == 8 {
        '8'
    } else {
        '9'
    }
}

/// Append the decimal form of a number.
fn append_usize(out: &mut Vec<char>, n: usize)
    ensures
        final(out)@ == old(out)@ + dec_digits(n as nat),
    decreases n,
{
    if n < 10 {
        out.push(digit_char_exec(n));
        proof {
            assert(out@ =~= old(out)@ + dec_digits(n as nat));
        }
    } else {
        append_usize(out, n / 10);
        out.push(digit_char_exec(n % 10));
        proof {
            assert(out@ =~= old(out)@ + dec_digits(n as nat));
        }
    }
}

/// Whether a character is special, executably.
fn is_special_exec(c: char) -> (r: bool)
    ensures
        r == is_special(c),
{
    c == ';' || c == '*' || c == '(' || c == ')' || c == '[' || c == ']' || c == '{' || c == '}'
        || c == ',' || c == ':'
}

/// The escaped form of a label, as a character vector.
fn escape_chars(s: &str) -> (v: Vec<char>)
    ensures
        v@ == escape_spec(s@),
{
    let n = s.unicode_len();
    let mut clean: Vec<char> = Vec::new();
    let mut i: usize = 0;
    while i < n
        invariant
            i <= n,
            n == s@.len(),
            clean@ == cleaned(s@.subrange(0, i as int)),
        decreases n - i,
    {
        let c = s.get_char(i);
        if c == '\n' {
            clean.push(' ');
        } else if c == '\r' {
        } else {
            clean.push(c);
        }
        i += 1;
        proof {
            assert(s@.subrange(0, i as int).drop_last() =~= s@.subrange(0, i - 1));
            assert(s@.subrange(0, i as int).last() == s@[i - 1]);
            assert(clean@ =~= cleaned(s@.subrange(0, i as int)));
        }
    }
    proof {
        assert(s@.subrange(0, n as int) =~= s@);
    }
    let m = clean.len();
    let mut found: bool = false;
    let mut j: usize = 0;
    while j < m
        invariant
            j <= m,
            m == clean@.len(),
            found == exists|t: int| 0 <= t < j && is_special(clean@[t]),
        decreases m - j,
    {
        if is_special_exec(clean[j]) {
            found = true;
        }
        j += 1;
    }
    if !found {
        assert(!has_special(clean@));
        clean
    } else {
        assert(has_special(clean@));
        let mut quoted: Vec<char> = Vec::new();
        quoted.push('"');
        let mut j: usize = 0;
        while j < m
            invariant
                j <= m,
                m == clean@.len(),
                quoted@ == seq!['"'] + strip_quotes(clean@.subrange(0, j as int)),
            decreases m - j,
        {
            let c = clean[j];
            if c != '"' {
                quoted.push(c);
            }
            j += 1;
            proof {
                assert(clean@.subrange(0, j as int).drop_last() =~= clean@.subrange(0, j - 1));
                assert(clean@.subrange(0, j as int).last() == clean@[j - 1]);
                assert(quoted@ =~= seq!['"'] + strip_quotes(clean@.subrange(0, j as int)));
            }
        }
        quoted.push('"');
        proof {
            assert(clean@.subrange(0, m as int) =~= clean@);
            assert(quoted@ =~= escape_spec(s@));
        }
        quoted
    }
}

/// Escape a label for the flowchart notation: newlines become spaces,
/// carriage returns disappear, and a label holding structural punctuation
/// is wrapped in double quotes with its own quotes removed.
pub fn escape_mermaid(s: &str) -> (r: String)
    ensures
        r@ == escape_spec(s@),
{
    string_from_chars(escape_chars(s))
}

/// Append the output line of one node.
fn append_node(out: &mut Vec<char>, node: &CFGNode)
    ensures
        final(out)@ == old(out)@ + node_text(node@),
{
    match node.node_type {
        NodeType::Entry | NodeType::Exit => {
            append_str(out, "    ");
            append_usize(out, node.id);
            append_str(out, "([");
            let esc = escape_chars(node.label.as_str());
            append_chars(out, &esc);
            append_str(out, "])\n");
            proof {
                assert(out@ =~= old(out)@ + node_text(node@));
            }
        },
        NodeType::Condition => {
            append_str(out, "    ");
            append_usize(out, node.id);
            append_str(out, "{");
            let esc = escape_chars(node.label.as_str());
            append_chars(out, &esc);
            append_str(out, "}\n");
            proof {
                assert(out@ =~= old(out)@ + node_text(node@));
            }
        },
        NodeType::Simple => {
            if !node.label.as_str().is_empty() {
                append_str(out, "    ");
                append_usize(out, node.id);
                append_str(out, "[");
                let esc = escape_chars(node.label.as_str());
                append_chars(out, &esc);
                append_str(out, "]\n");
                proof {
                    assert(out@ =~= old(out)@ + node_text(node@));
                }
            } else {
                proof {
                    assert(out@ =~= old(out)@ + node_text(node@));
                }
            }
        },
    }
}

/// Append the output line of one edge.
fn append_edge(out: &mut Vec<char>, edge: &CFGEdge)
    ensures
        final(out)@ == old(out)@ + edge_text(edge@),
{
    match &edge.label {
        Some(l) => {
            append_str(out, "    ");
            append_usize(out, edge.from);
            append_str(out, " -->|");
            append_str(out, l.as_str());
            append_str(out, "| ");
            append_usize(out, edge.to);
            append_str(out, "\n");
            proof {
                assert(out@ =~= old(out)@ + edge_text(edge@));
            }
        },
        None => {
            append_str(out, "    ");
            append_usize(out, edge.from);
            append_str(out, " --> ");
            append_usize(out, edge.to);
            append_str(out, "\n");
            proof {
                assert(out@ =~= old(out)@ + edge_text(edge@));
            }
        },
    }
}

/// Render a finished graph as a mermaid flowchart document: one line per
/// node, shaped by its kind, then one line per edge with its optional
/// branch label.
pub fn render_mermaid(cfg: &ControlFlowGraph) -> (r: String)
    ensures
        r@ == render_spec(cfg@),
{
    let mut out: Vec<char> = Vec::new();
    append_str(&mut out, "```mermaid\nflowchart TD\n");
    let n = cfg.nodes.len();
    let mut i: usize = 0;
    while i < n
        invariant
            i <= n,
            n == cfg.nodes@.len(),
            out@ == "```mermaid\nflowchart TD\n"@ + nodes_text(cfg@.nodes, i as int),
        decreases n - i,
    {
        append_node(&mut out, &cfg.nodes[i]);
        i += 1;
        proof {
            assert(out@ =~= "```mermaid\nflowchart TD\n"@ + nodes_text(cfg@.nodes, i as int));
        }
    }
    let m = cfg.edges.len();
    let mut j: usize = 0;
    while j < m
        invariant
            j <= m,
            m == cfg.edges@.len(),
            out@ == "```mermaid\nflowchart TD\n"@ + nodes_text(
                cfg@.nodes,
                cfg@.nodes.len() as int,
            ) + edges_text(cfg@.edges, j as int),
        decreases m - j,
    {
        append_edge(&mut out, &cfg.edges[j]);
        j += 1;
        proof {
            assert(out@ =~= "```mermaid\nflowchart TD\n"@ + nodes_text(
                cfg@.nodes,
                cfg@.nodes.len() as int,
            ) + edges_text(cfg@.edges, j as int));
        }
    }
    append_str(&mut out, "```\n");
    proof {
        assert(out@ =~= render_spec(cfg@));
    }
    string_from_chars(out)
}

} // verus!
