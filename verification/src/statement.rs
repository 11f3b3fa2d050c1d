//! The statement model: the simplified procedural tree that the graph
//! builder consumes.  A function body is an ordered sequence of statements,
//! each either a straight-line piece of code or a two-way conditional whose
//! branches are themselves statement sequences.

use vstd::prelude::*;

verus! {

/// One statement of a function body: either an opaque piece of straight-line
/// code, or a two-way conditional with a then-branch and an optional
/// else-branch.  An else-if chain is a conditional standing as the sole
/// statement of the else-branch; it needs no variant of its own.
#[derive(Debug)]
pub enum Statement {
    Simple {
        code: String,
        line: usize,
    },
    If {
        condition: String,
        then_branch: Vec<Statement>,
        else_branch: Option<Vec<Statement>>,
        line: usize,
    },
}

/// A function to turn into a control-flow graph: its name and the ordered
/// statement sequence of its body.
pub struct Function {
    pub name: String,
    pub body: Vec<Statement>,
}

/// The mathematical value of a `Function`: the name as a character sequence
/// and the body as a statement sequence.
pub struct FunctionV {
    pub name: Seq<char>,
    pub body: Seq<Statement>,
}

impl View for Function {
    type V = FunctionV;

    open spec fn view(&self) -> FunctionV {
        FunctionV { name: self.name@, body: self.body@ }
    }
}

/// A well-formed statement carries a non-empty code text on every simple
/// statement, at any nesting depth.  The statement producer guarantees this:
/// an empty label is reserved for the merge placeholders that the builder
/// allocates itself.
pub open spec fn stmt_wf(s: Statement) -> bool
    decreases s,
{
    match s {
        Statement::Simple { code, .. } => code@.len() > 0,
        Statement::If { then_branch, else_branch, .. } => {
            &&& stmts_wf(then_branch@)
            &&& (else_branch matches Some(e) ==> stmts_wf(e@))
        },
    }
}

/// All statements of a sequence are well-formed.
pub open spec fn stmts_wf(stmts: Seq<Statement>) -> bool
    decreases stmts,
{
    forall|i: int| 0 <= i < stmts.len() ==> stmt_wf(#[trigger] stmts[i])
}

} // verus!
