use vstd::prelude::*;

use crate::expression::specs::ExpressionAST;

pub mod dynamic;

pub use dynamic::DynamicBlock;

verus! {

/// A statement of a template.
pub struct Statement {}

/// The smallest unit of flow control.
pub enum StatementAstTree {
    /// A value to render.
    ItemValue(StatementValue),
    /// A branch of the flow.
    ItemBranch(StateBranch),
    /// A command.
    ItemCommand(StateCommand),
}

/// A rendered value: static text, or an expression.
pub enum StatementValue {
    ItemStatic(String),
    ItemDynamic(ExpressionAST),
}

/// A branching statement: its keyword, whether it loops, and its stages.
pub struct StateBranch {
    pub keyword: String,
    pub loops: bool,
    pub child: Vec<StateBranchProcess>,
}

/// One stage of a branch: its keyword, parameters and the statements inside it.
pub struct StateBranchProcess {
    pub keyword: String,
    pub params: Vec<StateParamType>,
    pub child_states: Vec<StatementAstTree>,
}

/// A command: its keyword and parameters.
pub struct StateCommand {
    pub keyword: String,
    pub params: Vec<StateParamType>,
}

/// The kinds of parameter of a statement.
pub enum StateParamType {
    /// A keyword.
    Keyword(String),
    /// Variables: `abc`, `abc,abd`, `_,abc`.
    Variables,
    /// An expression (between keywords).
    Expression,
    /// Static data.
    StaticValue,
}

/// The builder of the flow of a template.
pub struct StateBuilder {
    pub root: Vec<StatementAstTree>,
    pub child_stack: Vec<StatementAstTree>,
}

impl Default for StateBuilder {
    fn default() -> (r: Self)
        ensures
            r.root@.len() == 0,
            r.child_stack@.len() == 0,
    {
        StateBuilder { root: Vec::new(), child_stack: Vec::new() }
    }
}

/// The stack of statements while a template is read.
pub struct StateStack {
    pub root: Vec<StatementAstTree>,
    pub child_stack: Vec<StatementAstTree>,
}

impl Default for StateStack {
    fn default() -> (r: Self)
        ensures
            r.root@.len() == 0,
            r.child_stack@.len() == 0,
    {
        StateStack { root: Vec::new(), child_stack: Vec::new() }
    }
}

} // verus!
