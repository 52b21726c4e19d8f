use vstd::prelude::*;
use vstd::string::*;
use vstd::utf8::*;

use std::rc::Rc;

use crate::ast::{asts_view, SpecAst, SpecStage, TemplateAst, TemplateAstValue};
use crate::compile::ast_stack::{in_scope, operator_by_tag, spec_add_node, top_is_flow, AddError, TmplAstStack};
use crate::config::{operator_by_start, TemplateConfig};
use crate::error::{TemplateError, TmplResult};
use crate::expression::specs::{strings_view, ExpressionAST, ExpressionAstTree, SpecTree};
use crate::syntax::{spec_build, OperatorSyntax};
use crate::utils::strings::{blocks_view, ignore_view, spec_group_from, Block, SpecBlock};
use crate::value::{SpecValue, TemplateValue};

pub mod ast_stack;

verus! {

/// Builds the syntax trees of templates with a configuration.
pub struct Compile {
    pub config: Rc<TemplateConfig>,
}

/// The node that an operator builds from the source of a block (the outer `None` marks
/// the inputs on which building cannot complete).
pub open spec fn spec_build_ast(op: OperatorSyntax, src: Seq<char>) -> Option<Result<SpecAst, ()>> {
    match op {
        OperatorSyntax::Branch(b) => match spec_build(b.syntax.start@, src) {
            None => None,
            Some(Err(_)) => Some(Err(())),
            Some(Ok((k, ps))) => Some(
                Ok(SpecAst::Branch(b.syntax.start@.key, seq![SpecStage { key: k, params: ps, children: seq![] }], b.auto_loop)),
            ),
        },
        OperatorSyntax::Command(c) => match spec_build(c.syntax@, src) {
            None => None,
            Some(Err(_)) => Some(Err(())),
            Some(Ok((_, ps))) => Some(Ok(SpecAst::Command(c.syntax@.key, ps))),
        },
    }
}

pub type BuildState = (Seq<SpecAst>, Seq<SpecAst>);

pub open spec fn lift_add(r: Result<BuildState, AddError>) -> Option<Result<BuildState, AddError>> {
    Some(r)
}

/// The state once one block is read: static text is added; a dynamic block is dropped
/// while a flow is open, else it is built by the operator whose keyword starts it (which
/// must stand in its scopes), else it is kept as a text value. The outer `None` marks the
/// inputs on which reading cannot complete.
pub open spec fn spec_template_step(ops: Seq<OperatorSyntax>, st: BuildState, b: SpecBlock) -> Option<Result<BuildState, AddError>> {
    let (root, stack) = st;
    match b {
        SpecBlock::Static(t) => lift_add(spec_add_node(root, stack, SpecAst::Text(decode_utf8(t)))),
        SpecBlock::Dynamic(d) => {
            let src = decode_utf8(d);
            if !top_is_flow(stack, ops) {
                None
            } else if stack.len() > 0 && stack.last() is Branch {
                match operator_by_tag(ops, stack.last()->Branch_0, 0) {
                    Some(_) => Some(Ok(st)),
                    None => Some(Err(AddError::Generic)),
                }
            } else {
                match operator_by_start(ops, src, 0) {
                    Some(i) => if !in_scope(stack, strings_view(ops[i].scope()@)) {
                        Some(Err(AddError::Generic))
                    } else {
                        match spec_build_ast(ops[i], src) {
                            None => None,
                            Some(Err(_)) => Some(Err(AddError::Generic)),
                            Some(Ok(node)) => lift_add(spec_add_node(root, stack, node)),
                        }
                    },
                    None => lift_add(
                        spec_add_node(root, stack, SpecAst::Expr(SpecTree::Value(SpecValue::Text(src)))),
                    ),
                }
            }
        },
    }
}

/// The state once the first `n` blocks are read; the first error stops.
pub open spec fn spec_template_blocks(ops: Seq<OperatorSyntax>, blocks: Seq<SpecBlock>, n: int) -> Option<Result<BuildState, AddError>>
    decreases n,
{
    if n <= 0 || n > blocks.len() {
        Some(Ok((seq![], seq![])))
    } else {
        match spec_template_blocks(ops, blocks, n - 1) {
            None => None,
            Some(Err(e)) => Some(Err(e)),
            Some(Ok(st)) => spec_template_step(ops, st, blocks[n - 1]),
        }
    }
}

/// The bytes of `'` and `"`, the quotes whose blocks are skipped.
pub open spec fn quote_ignores() -> Seq<(Seq<u8>, Seq<u8>)> {
    seq![(seq![39u8], seq![39u8]), (seq![34u8], seq![34u8])]
}

/// The syntax tree of a template: its blocks read in turn (the outer `None` marks the
/// inputs on which this cannot complete).
pub open spec fn spec_build_template(cfg: TemplateConfig, src: Seq<char>) -> Option<Result<Seq<SpecAst>, AddError>> {
    match spec_group_from(encode_utf8(src), 0, encode_utf8(cfg.block_symbol.0@), encode_utf8(cfg.block_symbol.1@), quote_ignores(), false) {
        None => None,
        Some(blocks) => match spec_template_blocks(cfg.operators@, blocks, blocks.len() as int) {
            None => None,
            Some(Err(e)) => Some(Err(e)),
            Some(Ok((root, _))) => Some(Ok(root)),
        },
    }
}

/// `r` is the outcome `s` of building a template.
pub open spec fn build_result(r: TmplResult<Vec<TemplateAst>>, s: Result<Seq<SpecAst>, AddError>) -> bool {
    match s {
        Ok(root) => r matches Ok(v) && asts_view(v@) == root,
        Err(AddError::Exists) => r matches Err(TemplateError::ExistsError(_)),
        Err(AddError::Generic) => r matches Err(TemplateError::GenericError(_)),
    }
}

proof fn lemma_blocks_prefix(ops: Seq<OperatorSyntax>, blocks: Seq<SpecBlock>, k: int, n: int)
    requires
        0 <= k <= n <= blocks.len(),
        spec_template_blocks(ops, blocks, n) is Some,
    ensures
        spec_template_blocks(ops, blocks, k) is Some,
    decreases n - k,
{
    if k < n {
        lemma_blocks_prefix(ops, blocks, k, n - 1);
    }
}

proof fn lemma_blocks_err(ops: Seq<OperatorSyntax>, blocks: Seq<SpecBlock>, k: int, n: int, e: AddError)
    requires
        0 < k <= n <= blocks.len(),
        spec_template_blocks(ops, blocks, k) == Some(Err::<BuildState, AddError>(e)),
    ensures
        spec_template_blocks(ops, blocks, n) == Some(Err::<BuildState, AddError>(e)),
    decreases n - k,
{
    if k < n {
        lemma_blocks_err(ops, blocks, k, n - 1, e);
    }
}

impl Compile {
    /// A compiler with the configuration `config`.
    pub fn new(config: Rc<TemplateConfig>) -> (r: Self)
        ensures
            r.config == config,
    {
        Compile { config }
    }

    /// The syntax tree of a template (see [`spec_build_template`]).
    #[verifier::loop_isolation(false)]
    pub fn build_template(&self, src: &str) -> (r: TmplResult<Vec<TemplateAst>>)
        requires
            spec_build_template(*self.config, src@) is Some,
        ensures
            build_result(r, spec_build_template(*self.config, src@)->0),
    {
        let config: &TemplateConfig = &self.config;
        let ghost ops = config.operators@;
        proof {
            reveal_strlit("'");
            reveal_strlit("\"");
            crate::expression::parse::lemma_quote_bytes();
        }
        let ignores: Vec<(&str, &str)> = vec![("'", "'"), ("\"", "\"")];
        assert(ignore_view(ignores@) =~= quote_ignores());
        let blocks = Block::new_group(src, config.block_symbol.0.as_str(), config.block_symbol.1.as_str(), &ignores, false);
        let ghost bv = blocks_view(blocks@);
        let mut stack = TmplAstStack::default();
        let mut i: usize = 0;
        assert(asts_view(stack.root@) =~= Seq::<SpecAst>::empty());
        assert(asts_view(stack.child_stack@) =~= Seq::<SpecAst>::empty());
        while i < blocks.len()
            invariant
                i <= blocks@.len(),
                bv == blocks_view(blocks@),
                ops == config.operators@,
                spec_template_blocks(ops, bv, bv.len() as int) is Some,
                spec_template_blocks(ops, bv, i as int) == Some(
                    Ok::<BuildState, AddError>((asts_view(stack.root@), asts_view(stack.child_stack@))),
                ),
            decreases blocks@.len() - i,
        {
            proof {
                lemma_blocks_prefix(ops, bv, i + 1, bv.len() as int);
            }
            let ghost st = (asts_view(stack.root@), asts_view(stack.child_stack@));
            let ghost next = spec_template_step(ops, st, bv[i as int]);
            assert(spec_template_blocks(ops, bv, i + 1) == next);
            assert(next is Some);
            let outcome: TmplResult<()> = match blocks[i] {
                Block::Dynamic(text) => {
                    proof {
                        encode_utf8_decode_utf8(text@);
                    }
                    match stack.get_stack_top_operator(&config.operators) {
                        Err(e) => Err(e),
                        Ok(Some(_)) => Ok(()),
                        Ok(None) => {
                            match config.get_operator_by_start(text) {
                                Some(operator) => {
                                    match operator.check_scope(&stack) {
                                        Err(e) => Err(e),
                                        Ok(_) => {
                                            match operator.build_ast(text) {
                                                Err(e) => Err(e),
                                                Ok(node) => {
                                                    proof {
                                                        match operator {
                                                            OperatorSyntax::Branch(_) => {
                                                                let v = node.spec_view();
                                                                assert(v->Branch_1 =~= seq![v->Branch_1[0]]);
                                                                assert(v->Branch_1[0].children =~= Seq::<SpecAst>::empty());
                                                            },
                                                            _ => {},
                                                        }
                                                    }
                                                    stack.add_node(node)
                                                },
                                            }
                                        },
                                    }
                                },
                                None => {
                                    let value = ExpressionAstTree::ItemValue(TemplateValue::Text(String::from_str(text)));
                                    let node = TemplateAst::ItemValue(
                                        TemplateAstValue::ItemExpression(ExpressionAST { variables: Vec::new(), ast: value }),
                                    );
                                    stack.add_node(node)
                                },
                            }
                        },
                    }
                },
                Block::Static(text) => {
                    proof {
                        encode_utf8_decode_utf8(text@);
                    }
                    stack.add_node(TemplateAst::new_text(text))
                },
            };
            match outcome {
                Ok(_) => {},
                Err(e) => {
                    assert(next->0 is Err);
                    assert(match next->0 {
                        Err(AddError::Exists) => e is ExistsError,
                        Err(AddError::Generic) => e is GenericError,
                        Ok(_) => false,
                    });
                    proof {
                        match next->0 {
                            Err(k) => {
                                lemma_blocks_err(ops, bv, i + 1, bv.len() as int, k);
                            },
                            Ok(_) => {},
                        }
                    }
                    return Err(e);
                },
            }
            i = i + 1;
        }
        assert(bv.len() == blocks@.len());
        Ok(stack.root)
    }
}

} // verus!
