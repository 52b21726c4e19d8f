use vstd::prelude::*;

use crate::expression::specs::{ExpressionAST, SpecTree};
use crate::value::TemplateValue;

verus! {

/// A parameter of a flow-control command.
#[derive(Debug)]
pub enum CommandParam {
    Keywords,
    Assignment(Vec<String>),
    Expression(ExpressionAST),
    StaticValue(TemplateValue),
}

/// The model of a [`CommandParam`] as far as commands are parsed: its kind, and for an
/// assignment the names assigned.
pub enum SpecParam {
    Keywords,
    Assignment(Seq<Seq<char>>),
    Expression,
    StaticValue,
}

pub open spec fn param_view(p: CommandParam) -> SpecParam {
    match p {
        CommandParam::Keywords => SpecParam::Keywords,
        CommandParam::Assignment(v) => SpecParam::Assignment(Seq::new(v@.len(), |i: int| v@[i]@)),
        CommandParam::Expression(_) => SpecParam::Expression,
        CommandParam::StaticValue(_) => SpecParam::StaticValue,
    }
}

pub open spec fn params_view(v: Seq<CommandParam>) -> Seq<SpecParam> {
    Seq::new(v.len(), |i: int| param_view(v[i]))
}

/// A stage of a flow: its key, its parameters and the nodes inside it.
#[derive(Debug)]
pub struct Branch {
    pub key: String,
    pub params: Vec<CommandParam>,
    pub child_stages: Vec<TemplateAst>,
}

impl Branch {
    /// A stage with no nodes yet.
    pub fn new(key: &str, params: Vec<CommandParam>) -> (r: Self)
        ensures
            r.key@ == key@,
            r.params@ == params@,
            r.child_stages@.len() == 0,
    {
        Branch { key: String::from_str(key), params, child_stages: Vec::new() }
    }
}

/// The syntax tree of a template.
#[derive(Debug)]
pub enum TemplateAst {
    /// A value to render.
    ItemValue(TemplateAstValue),
    /// A flow with stages: its key, the stages, and whether it loops.
    ItemBranch(String, Vec<Branch>, bool),
    /// A command: its key and parameters.
    ItemCommand(String, Vec<CommandParam>),
}

/// What a value node renders.
#[derive(Debug)]
pub enum TemplateAstValue {
    ItemExpression(ExpressionAST),
    ItemString(String),
}

impl TemplateAst {
    /// The key of a flow or command node.
    pub fn get_tag(&self) -> (r: Option<&str>)
        ensures
            match self {
                TemplateAst::ItemBranch(e, _, _) => r matches Some(t) && t@ == e@,
                TemplateAst::ItemCommand(e, _) => r matches Some(t) && t@ == e@,
                _ => r is None,
            },
    {
        match self {
            TemplateAst::ItemBranch(e, _, _) => Some(e.as_str()),
            TemplateAst::ItemCommand(e, _) => Some(e.as_str()),
            _ => None,
        }
    }

    /// A node of static text.
    pub fn new_text(text: &str) -> (r: TemplateAst)
        ensures
            r matches TemplateAst::ItemValue(TemplateAstValue::ItemString(t)) && t@ == text@,
    {
        TemplateAst::ItemValue(TemplateAstValue::ItemString(String::from_str(text)))
    }
}

/// The model of a node of a template's syntax tree.
pub enum SpecAst {
    /// Static text.
    Text(Seq<char>),
    /// An expression, by its tree.
    Expr(SpecTree),
    /// A flow: its key, its stages and whether it loops.
    Branch(Seq<char>, Seq<SpecStage>, bool),
    /// A command: its key and parameters.
    Command(Seq<char>, Seq<SpecParam>),
}

/// The model of a stage of a flow.
pub struct SpecStage {
    pub key: Seq<char>,
    pub params: Seq<SpecParam>,
    pub children: Seq<SpecAst>,
}

impl TemplateAst {
    pub open spec fn spec_view(&self) -> SpecAst
        decreases self, 2int,
    {
        match self {
            TemplateAst::ItemValue(TemplateAstValue::ItemString(s)) => SpecAst::Text(s@),
            TemplateAst::ItemValue(TemplateAstValue::ItemExpression(e)) => SpecAst::Expr(e.ast.spec_view()),
            TemplateAst::ItemBranch(k, stages, l) => SpecAst::Branch(
                k@,
                Seq::new(
                    stages@.len(),
                    |i: int|
                        if 0 <= i < stages@.len() {
                            stages@[i].spec_view()
                        } else {
                            SpecStage { key: Seq::empty(), params: Seq::empty(), children: Seq::empty() }
                        },
                ),
                *l,
            ),
            TemplateAst::ItemCommand(k, ps) => SpecAst::Command(k@, params_view(ps@)),
        }
    }
}

impl Branch {
    pub open spec fn spec_view(&self) -> SpecStage
        decreases self, 1int,
    {
        SpecStage { key: self.key@, params: params_view(self.params@), children: asts_view(self.child_stages@) }
    }
}

/// The models of a list of nodes.
pub open spec fn asts_view(v: Seq<TemplateAst>) -> Seq<SpecAst>
    decreases v, 0int,
{
    Seq::new(
        v.len(),
        |i: int|
            if 0 <= i < v.len() {
                v[i].spec_view()
            } else {
                SpecAst::Text(Seq::empty())
            },
    )
}

} // verus!
