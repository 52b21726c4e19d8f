use vstd::prelude::*;

use crate::error::{TemplateError, TmplResult};
use crate::expression::groups::spec_parse_groups;
use crate::expression::link::link_all;
use crate::expression::manager::{ExpressionManager, SpecManager};
use crate::expression::output::{spec_to_ast, tree_vars};
use crate::expression::parse::{spec_parse_static, ExpressCompileIR};
use crate::expression::reduce::{spec_cp, spec_flat};
use crate::expression::runner::spec_run;
use crate::expression::specs::{strings_view, Expression, ExpressionAST, ExpressionIR, SpecIR, SpecTree};
use crate::expression::tag::spec_tagged;

verus! {

/// What compiling fails with: a syntax error (`None`), or a failed check with its texts.
pub type SpecCompileError = Option<(Seq<char>, Seq<char>)>;

/// The tree an expression compiles to, or the error it fails with: its quoted texts are
/// read, its parts are tagged and grouped, primitives are applied to what stands before
/// them, the operators are linked, primitives are applied again, single-part groups are
/// flattened, the tree is built and what can be computed is computed. The outer `None`
/// marks the inputs on which compiling cannot complete.
pub open spec fn spec_compile(m: SpecManager, s: Seq<char>) -> Option<Result<SpecTree, SpecCompileError>> {
    match spec_parse_static(s) {
        None => None,
        Some(p) => match spec_parse_groups(spec_tagged(m, p)) {
            None => None,
            Some(g) => match link_all(m.symbols, spec_cp(g), m.symbols.len() as int) {
                Err(_) => Some(Err(None)),
                Ok(l) => match spec_to_ast(spec_flat(SpecIR::Group(spec_cp(l)))) {
                    None => None,
                    Some(Err(_)) => Some(Err(None)),
                    Some(Ok(t)) => match spec_run(m.natives, t, seq![]) {
                        Err(e) => Some(Err(Some(e))),
                        Ok(t2) => Some(Ok(t2)),
                    },
                },
            },
        },
    }
}

/// `r` is the compiled expression `s`, or the error it stands for.
pub open spec fn compile_result(r: TmplResult<Expression>, s: Result<SpecTree, SpecCompileError>) -> bool {
    match s {
        Ok(t) => r matches Ok(x) && x.ast.spec_view() == t && strings_view(x.variables@) == tree_vars(t),
        Err(None) => r matches Err(TemplateError::SyntaxError(_)),
        Err(Some((a, b))) => r matches Err(TemplateError::CheckError(x, y)) && x@ == a && y@ == b,
    }
}

impl ExpressionManager {
    /// Compiles an expression (see [`spec_compile`]).
    pub fn compile(&self, expr_str: &str) -> (r: TmplResult<Expression>)
        requires
            self.wf(),
            spec_compile(self.spec_view(), expr_str@) is Some,
        ensures
            compile_result(r, spec_compile(self.spec_view(), expr_str@)->0),
    {
        let parts = ExpressCompileIR::parse_static_str(expr_str);
        let mut src = match self.tagged_symbols(parts) {
            Ok(v) => v,
            Err(e) => {
                return Err(e);
            },
        };
        let _ = ExpressionIR::parse_groups(&mut src);
        let _ = ExpressionIR::compile_primitives(&mut src);
        match self.link_symbols(&mut src) {
            Ok(_) => {},
            Err(e) => {
                return Err(e);
            },
        }
        let _ = ExpressionIR::compile_primitives(&mut src);
        let _ = self.link_static_primitives(src.as_mut_slice());
        let mut ir = ExpressionIR::ItemGroup(src);
        let _ = ExpressionIR::flat_depth(&mut ir);
        let ast = match ir.to_ast() {
            Ok(a) => a,
            Err(e) => {
                return Err(e);
            },
        };
        self.optimize(ExpressionAST::from(ast))
    }
}

} // verus!
