use vstd::prelude::*;

pub mod cfg;
pub mod laws;
pub mod renderer;
pub mod statement;

pub use cfg::build_cfg;
pub use cfg::CFGBuilder;
pub use cfg::CFGEdge;
pub use cfg::CFGNode;
pub use cfg::ControlFlowGraph;
pub use cfg::NodeType;
pub use renderer::render_mermaid;
pub use statement::Function;
pub use statement::Statement;
