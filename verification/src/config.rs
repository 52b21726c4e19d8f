use vstd::prelude::*;
use vstd::string::*;

use crate::expression::manager::ExpressionManager;
use crate::syntax::OperatorSyntax;
use crate::template::{default_state, is_default_state};
use crate::utils::chars::starts_with;

verus! {

/// The configuration of the template engine.
pub struct TemplateConfig {
    /// The operators and primitives of expressions.
    pub expr_manager: ExpressionManager,
    /// The tags that open and close a block.
    pub block_symbol: (String, String),
    /// The flow-control operators.
    pub operators: Vec<OperatorSyntax>,
}

/// The first operator from position `i` on whose opening keyword, followed by a space,
/// starts `src`.
pub open spec fn operator_by_start(ops: Seq<OperatorSyntax>, src: Seq<char>, i: int) -> Option<int>
    decreases ops.len() - i,
{
    if i < 0 || i >= ops.len() {
        None
    } else if (ops[i].start_tag() + seq![' ']).is_prefix_of(src) {
        Some(i)
    } else {
        operator_by_start(ops, src, i + 1)
    }
}

impl TemplateConfig {
    /// The first operator whose opening keyword, followed by a space, starts `src`.
    pub fn get_operator_by_start(&self, src: &str) -> (r: Option<&OperatorSyntax>)
        ensures
            match operator_by_start(self.operators@, src@, 0) {
                Some(i) => r == Some(&self.operators@[i]),
                None => r is None,
            },
    {
        let mut i: usize = 0;
        while i < self.operators.len()
            invariant
                i <= self.operators@.len(),
                operator_by_start(self.operators@, src@, i as int) == operator_by_start(self.operators@, src@, 0),
            decreases self.operators@.len() - i,
        {
            let mut prefix = String::from_str(self.operators[i].get_start_tag());
            proof {
                reveal_strlit(" ");
            }
            prefix.append(" ");
            if starts_with(src, prefix.as_str()) {
                return Some(&self.operators[i]);
            }
            i = i + 1;
        }
        None
    }
}

impl Default for TemplateConfig {
    /// The default operators and expressions, with blocks between `{{` and `}}`.
    fn default() -> (r: Self)
        ensures
            r.expr_manager.wf(),
            r.block_symbol.0@ == seq!['{', '{'],
            r.block_symbol.1@ == seq!['}', '}'],
            is_default_state(r.operators@),
    {
        proof {
            reveal_strlit("{{");
            reveal_strlit("}}");
        }
        TemplateConfig {
            expr_manager: ExpressionManager::default(),
            block_symbol: (String::from_str("{{"), String::from_str("}}")),
            operators: default_state(),
        }
    }
}

} // verus!
