use vstd::prelude::*;
use vstd::string::*;

use crate::ast::{params_view, Branch, CommandParam, SpecParam, TemplateAst};
use crate::error::{TemplateError, TmplResult};
use crate::utils::chars::{chars_of, index_of, index_of_from, lemma_index_of_range, spec_split, spec_trim, split_char, starts_with, trim};
use crate::utils::strings::{is_expr, spec_is_expr};

use crate::utils::debug::{debug_str, debug_text};

verus! {

broadcast use vstd::string::group_string_axioms;

/// A parameter in the syntax of a flow-control command.
#[derive(Debug)]
pub enum ParamSyntax {
    /// A keyword.
    Keywords(String),
    /// Variables assigned to.
    Assignment,
    /// An expression.
    Expression,
    /// A static value.
    StaticValue,
}

pub enum SpecParamSyntax {
    Keywords(Seq<char>),
    Assignment,
    Expression,
    StaticValue,
}

impl ParamSyntax {
    pub open spec fn spec_view(&self) -> SpecParamSyntax {
        match self {
            ParamSyntax::Keywords(k) => SpecParamSyntax::Keywords(k@),
            ParamSyntax::Assignment => SpecParamSyntax::Assignment,
            ParamSyntax::Expression => SpecParamSyntax::Expression,
            ParamSyntax::StaticValue => SpecParamSyntax::StaticValue,
        }
    }
}

pub open spec fn param_syntaxes_view(v: Seq<ParamSyntax>) -> Seq<SpecParamSyntax> {
    Seq::new(v.len(), |i: int| v[i].spec_view())
}

/// The keyword of a flow-control command and its syntax rules (rule name and parameters).
/// Rule names are distinct.
#[derive(Debug)]
pub struct CommandSyntax {
    key: String,
    syntax: Vec<(String, Vec<ParamSyntax>)>,
}

/// The model of a [`CommandSyntax`]: its keyword, and its rules in the order their names
/// were first given.
pub struct SpecCommandSyntax {
    pub key: Seq<char>,
    pub rules: Seq<(Seq<char>, Seq<SpecParamSyntax>)>,
}

pub open spec fn rules_view(v: Seq<(String, Vec<ParamSyntax>)>) -> Seq<(Seq<char>, Seq<SpecParamSyntax>)> {
    Seq::new(v.len(), |i: int| (v[i].0@, param_syntaxes_view(v[i].1@)))
}

impl View for CommandSyntax {
    type V = SpecCommandSyntax;

    closed spec fn view(&self) -> SpecCommandSyntax {
        SpecCommandSyntax { key: self.key@, rules: rules_view(self.syntax@) }
    }
}

/// Index of the first rule named `k`.
pub open spec fn rule_index(rules: Seq<(Seq<char>, Seq<SpecParamSyntax>)>, k: Seq<char>, i: int) -> Option<int>
    decreases rules.len() - i,
{
    if i < 0 || i >= rules.len() {
        None
    } else if rules[i].0 == k {
        Some(i)
    } else {
        rule_index(rules, k, i + 1)
    }
}

/// Adds a rule; a rule with the same name is replaced in place.
pub open spec fn insert_rule(rules: Seq<(Seq<char>, Seq<SpecParamSyntax>)>, k: Seq<char>, v: Seq<SpecParamSyntax>) -> Seq<(Seq<char>, Seq<SpecParamSyntax>)> {
    match rule_index(rules, k, 0) {
        Some(i) => rules.update(i, (k, v)),
        None => rules.push((k, v)),
    }
}

/// The rule table made from a list of named rules (a later rule replaces an earlier one
/// with the same name).
pub open spec fn rules_from(pairs: Seq<(Seq<char>, Seq<SpecParamSyntax>)>) -> Seq<(Seq<char>, Seq<SpecParamSyntax>)>
    decreases pairs.len(),
{
    if pairs.len() == 0 {
        Seq::empty()
    } else {
        insert_rule(rules_from(pairs.drop_last()), pairs.last().0, pairs.last().1)
    }
}

pub open spec fn pairs_view(v: Seq<(&str, Vec<ParamSyntax>)>) -> Seq<(Seq<char>, Seq<SpecParamSyntax>)> {
    Seq::new(v.len(), |i: int| (v[i].0@, param_syntaxes_view(v[i].1@)))
}

/// Whether the variable names are all identifiers: `None` when one of them is empty
/// before any non-identifier is met (checking it cannot complete).
pub open spec fn check_vars(ps: Seq<Seq<char>>) -> Option<bool>
    decreases ps.len(),
{
    if ps.len() == 0 {
        Some(true)
    } else if ps[0].len() == 0 {
        None
    } else if !spec_is_expr(ps[0]) {
        Some(false)
    } else {
        check_vars(ps.drop_first())
    }
}

/// The variable names on the left of the first `=` (split at `,` when in parentheses).
pub open spec fn assignment_names(rest: Seq<char>) -> Option<Seq<Seq<char>>> {
    match index_of_from(rest, '=', 0) {
        None => None,
        Some(e) => {
            let param = spec_trim(rest.take(e));
            Some(
                if param.len() > 0 && param[0] == '(' && param.last() == ')' {
                    spec_split(param, ',')
                } else {
                    seq![param]
                },
            )
        },
    }
}

/// The parameters read by the first `n` parameter syntaxes from `src`, with what is left
/// of `src` (`None`: reading cannot complete).
pub open spec fn build_params(src: Seq<char>, syn: Seq<SpecParamSyntax>, n: int) -> Option<(Seq<char>, Seq<SpecParam>)>
    decreases n,
{
    if n <= 0 || n > syn.len() {
        if n <= 0 {
            Some((src, Seq::empty()))
        } else {
            None
        }
    } else {
        match build_params(src, syn, n - 1) {
            None => None,
            Some((rest, acc)) => match syn[n - 1] {
                SpecParamSyntax::Keywords(k) => if (k + seq![' ']).is_prefix_of(rest) {
                    Some((rest.skip(k.len() + 1 as int), acc.push(SpecParam::Keywords)))
                } else {
                    Some((rest, acc))
                },
                SpecParamSyntax::Assignment => match assignment_names(rest) {
                    None => Some((rest, acc)),
                    Some(names) => match check_vars(names) {
                        None => None,
                        Some(false) => Some((rest, acc)),
                        Some(true) => Some((rest, acc.push(SpecParam::Assignment(names)))),
                    },
                },
                _ => Some((rest, acc)),
            },
        }
    }
}

/// What building a command from `src` gives: an error when `src` does not start with
/// the keyword or there is no rule; else the first rule's name and the parameters read by
/// it from the trimmed source (`None`: building cannot complete).
pub open spec fn spec_build(c: SpecCommandSyntax, src: Seq<char>) -> Option<Result<(Seq<char>, Seq<SpecParam>), ()>> {
    if !c.key.is_prefix_of(src) || c.rules.len() == 0 {
        Some(Err(()))
    } else {
        match build_params(spec_trim(src), c.rules[0].1, c.rules[0].1.len() as int) {
            None => None,
            Some((_, ps)) => Some(Ok((c.rules[0].0, ps))),
        }
    }
}

/// The `Debug` text of a command syntax, written by std's `format!` (`{:?}`) with the
/// derived `Debug`; nothing is claimed of the text.
#[verifier::external_body]
fn debug_syntax(syntax: &CommandSyntax) -> String {
    format!("{:?}", syntax)
}

/// The message of a source that does not start with the command's keyword: the `Debug`
/// texts of the source and of the syntax.
fn mismatch_message(src: &str, syntax: &CommandSyntax) -> (r: String)
    ensures
        exists|b: Seq<char>| r@ == "源码与操作符不匹配："@ + debug_text(src@) + " != "@ + b,
{
    let a = debug_str(src);
    let b = debug_syntax(syntax);
    let mut m = String::from_str("源码与操作符不匹配：");
    m.append(a.as_str());
    m.append(" != ");
    m.append(b.as_str());
    assert(m@ == "源码与操作符不匹配："@ + a@ + " != "@ + b@);
    m
}

fn no_rule_message(src: &str) -> (r: String)
    ensures
        r@ == "表达式 "@ + src@ + " 未找到匹配的解析规则！"@,
{
    let mut m = String::from_str("表达式 ");
    m.append(src);
    m.append(" 未找到匹配的解析规则！");
    m
}

fn strings_of(v: &Vec<&str>) -> (r: Vec<String>)
    ensures
        r@.len() == v@.len(),
        forall|i: int| 0 <= i < v@.len() ==> #[trigger] r@[i]@ == v@[i]@,
{
    let mut out: Vec<String> = Vec::new();
    let mut i: usize = 0;
    while i < v.len()
        invariant
            i <= v@.len(),
            out@.len() == i,
            forall|k: int| 0 <= k < i ==> #[trigger] out@[k]@ == v@[k]@,
        decreases v@.len() - i,
    {
        out.push(String::from_str(v[i]));
        i = i + 1;
    }
    out
}

impl CommandSyntax {
    /// Reads the parameters of this command from `src` with its first rule.
    pub fn build(&self, src: &str) -> (r: TmplResult<Branch>)
        requires
            spec_build(self@, src@) is Some,
        ensures
            match r {
                Ok(b) => spec_build(self@, src@) == Some(Ok::<_, ()>((b.key@, params_view(b.params@))))
                    && b.child_stages@.len() == 0,
                Err(e) => {
                    &&& spec_build(self@, src@) == Some(Err::<(Seq<char>, Seq<SpecParam>), ()>(()))
                    &&& e matches TemplateError::GenericError(m)
                    &&& if self@.key.is_prefix_of(src@) {
                        m@ == "表达式 "@ + src@ + " 未找到匹配的解析规则！"@
                    } else {
                        exists|b: Seq<char>| m@ == "源码与操作符不匹配："@ + debug_text(src@) + " != "@ + b
                    }
                },
            },
    {
        if !starts_with(src, self.key.as_str()) {
            return Err(TemplateError::GenericError(mismatch_message(src, self)));
        }
        if self.syntax.len() == 0 {
            return Err(TemplateError::GenericError(no_rule_message(src)));
        }
        let key = &self.syntax[0].0;
        let param_syntax_arr = &self.syntax[0].1;
        let ghost syn = param_syntaxes_view(param_syntax_arr@);
        assert(self@.rules[0].1 == syn);
        let mut result: Vec<CommandParam> = Vec::new();
        let mut cur: &str = trim(src);
        let mut i: usize = 0;
        assert(params_view(result@) =~= Seq::<SpecParam>::empty());
        while i < param_syntax_arr.len()
            invariant
                i <= param_syntax_arr@.len(),
                syn == param_syntaxes_view(param_syntax_arr@),
                build_params(spec_trim(src@), syn, syn.len() as int) is Some,
                build_params(spec_trim(src@), syn, i as int) == Some((cur@, params_view(result@))),
            decreases param_syntax_arr@.len() - i,
        {
            proof {
                lemma_build_params_prefix(spec_trim(src@), syn, i + 1, syn.len() as int);
            }
            assert(syn[i as int] == param_syntax_arr@[i as int].spec_view());
            match &param_syntax_arr[i] {
                ParamSyntax::Keywords(k) => {
                    let kc = chars_of(k.as_str());
                    let cc = chars_of(cur);
                    if starts_with(cur, k.as_str()) && kc.len() < cc.len() && cc[kc.len()] == ' ' {
                        assert((k@ + seq![' ']).is_prefix_of(cur@));
                        let n = cc.len();
                        cur = cur.substring_char(kc.len() + 1, n);
                        let ghost before = params_view(result@);
                        result.push(CommandParam::Keywords);
                        assert(params_view(result@) =~= before.push(SpecParam::Keywords));
                    } else {
                        proof {
                            if (k@ + seq![' ']).is_prefix_of(cur@) {
                                assert(k@.is_prefix_of(cur@));
                                assert(cur@[k@.len() as int] == (k@ + seq![' '])[k@.len() as int]);
                            }
                        }
                    }
                },
                ParamSyntax::Assignment => {
                    let cc = chars_of(cur);
                    match index_of(&cc, '=') {
                        None => {},
                        Some(e) => {
                            proof {
                                lemma_index_of_range(cc@, '=', 0);
                            }
                            let left = cur.substring_char(0, e);
                            assert(left@ =~= cur@.take(e as int));
                            let param = trim(left);
                            let pc = chars_of(param);
                            let names: Vec<&str> = if pc.len() > 0 && pc[0] == '(' && pc[pc.len() - 1] == ')' {
                                split_char(param, ',')
                            } else {
                                let mut one: Vec<&str> = Vec::new();
                                one.push(param);
                                one
                            };
                            let ghost nv = Seq::new(names@.len(), |q: int| names@[q]@);
                            assert(assignment_names(cur@) == Some(nv)) by {
                                if pc@.len() > 0 && pc@[0] == '(' && pc@[pc@.len() - 1] == ')' {
                                    assert(nv =~= spec_split(param@, ','));
                                } else {
                                    assert(nv =~= seq![param@]);
                                }
                            }
                            let mut ok = true;
                            let mut j: usize = 0;
                            assert(nv.skip(0) =~= nv);
                            while j < names.len()
                                invariant
                                    j <= names@.len(),
                                    nv == Seq::new(names@.len(), |q: int| names@[q]@),
                                    check_vars(nv) is Some,
                                    ok ==> check_vars(nv) == check_vars(nv.skip(j as int)),
                                    !ok ==> check_vars(nv) == Some(false),
                                decreases names@.len() - j,
                            {
                                if ok {
                                    let ghost rest = nv.skip(j as int);
                                    assert(rest[0] == names@[j as int]@);
                                    assert(rest.drop_first() =~= nv.skip(j + 1));
                                    let nc = chars_of(names[j]);
                                    if nc.len() == 0 {
                                        assert(check_vars(rest) is None);
                                    } else if !is_expr(names[j]) {
                                        ok = false;
                                    }
                                }
                                j = j + 1;
                            }
                            if ok {
                                assert(nv.skip(names@.len() as int) =~= Seq::<Seq<char>>::empty());
                                let strs = strings_of(&names);
                                let ghost before = params_view(result@);
                                result.push(CommandParam::Assignment(strs));
                                assert(Seq::new(strs@.len(), |q: int| strs@[q]@) =~= nv);
                                assert(params_view(result@) =~= before.push(SpecParam::Assignment(nv)));
                            }
                        },
                    }
                },
                ParamSyntax::Expression => {},
                ParamSyntax::StaticValue => {},
            }
            i = i + 1;
        }
        Ok(Branch::new(key.as_str(), result))
    }

    /// A command with its keyword and named rules.
    pub fn new(tag: &str, syntax: Vec<(&str, Vec<ParamSyntax>)>) -> (r: Self)
        ensures
            r@.key == tag@,
            r@.rules == rules_from(pairs_view(syntax@)),
    {
        let ghost pairs = pairs_view(syntax@);
        let mut rest = syntax;
        let mut rules: Vec<(String, Vec<ParamSyntax>)> = Vec::new();
        let ghost mut i: int = 0;
        assert(pairs.take(0) =~= Seq::<(Seq<char>, Seq<SpecParamSyntax>)>::empty());
        while rest.len() > 0
            invariant
                0 <= i <= pairs.len(),
                rest@.len() == pairs.len() - i,
                pairs_view(rest@) =~= pairs.skip(i),
                rules_view(rules@) == rules_from(pairs.take(i)),
            decreases rest@.len(),
        {
            let ghost old_rest = rest@;
            let (k, v) = rest.remove(0);
            assert(pairs_view(old_rest)[0] == pairs.skip(i)[0]);
            assert(pairs.skip(i)[0] == (k@, param_syntaxes_view(v@)));
            assert(pairs_view(rest@) =~= pairs.skip(i + 1)) by {
                assert forall|q: int| 0 <= q < rest@.len() implies #[trigger] pairs_view(rest@)[q] == pairs.skip(i + 1)[q] by {
                    assert(rest@[q] == old_rest[q + 1]);
                    assert(pairs_view(old_rest)[q + 1] == pairs.skip(i)[q + 1]);
                }
            }
            assert(pairs.take(i + 1).drop_last() =~= pairs.take(i));
            let ks = String::from_str(k);
            let mut j: usize = 0;
            let ghost rv = rules_view(rules@);
            while j < rules.len() && !(rules[j].0 == ks)
                invariant
                    j <= rules@.len(),
                    rv == rules_view(rules@),
                    ks@ == k@,
                    rule_index(rv, k@, j as int) == rule_index(rv, k@, 0),
                decreases rules@.len() - j,
            {
                assert(rv[j as int].0 == rules@[j as int].0@);
                j = j + 1;
            }
            if j < rules.len() {
                assert(rv[j as int].0 == rules@[j as int].0@);
            }
            if j < rules.len() {
                rules.set(j, (ks, v));
                assert(rules_view(rules@) =~= rv.update(j as int, (k@, param_syntaxes_view(v@))));
            } else {
                rules.push((ks, v));
                assert(rules_view(rules@) =~= rv.push((k@, param_syntaxes_view(v@))));
            }
            proof {
                i = i + 1;
            }
        }
        assert(pairs.take(i) =~= pairs);
        CommandSyntax { key: String::from_str(tag), syntax: rules }
    }

    /// This command as a child stage with the given constraints.
    pub fn to_stage(self, bind: Vec<StageConstraint>) -> (r: ChildStageSyntax)
        ensures
            r@.tag == self@,
            r@.bind == bind@.to_set(),
    {
        ChildStageSyntax::new(self, bind)
    }

    /// A command with its keyword and no rules.
    pub fn new_empty_param(tag: &str) -> (r: Self)
        ensures
            r@.key == tag@,
            r@.rules.len() == 0,
    {
        Self::new(tag, Vec::new())
    }

    /// The keyword of the command.
    pub fn key(&self) -> (r: &str)
        ensures
            r@ == self@.key,
    {
        self.key.as_str()
    }
}

proof fn lemma_build_params_prefix(src: Seq<char>, syn: Seq<SpecParamSyntax>, m: int, n: int)
    requires
        0 <= m <= n <= syn.len(),
        build_params(src, syn, n) is Some,
    ensures
        build_params(src, syn, m) is Some,
    decreases n - m,
{
    if m < n {
        lemma_build_params_prefix(src, syn, m, n - 1);
    }
}


/// A constraint on a child stage.
#[derive(Debug, Eq, PartialEq, Hash, PartialOrd)]
pub enum StageConstraint {
    /// The stage may appear once only.
    SINGLE,
}

/// A child stage of a flow: its command and its set of constraints.
#[derive(Debug)]
pub struct ChildStageSyntax {
    tag: CommandSyntax,
    bind: Vec<StageConstraint>,
}

pub struct SpecChildStage {
    pub tag: SpecCommandSyntax,
    pub bind: Set<StageConstraint>,
}

impl View for ChildStageSyntax {
    type V = SpecChildStage;

    closed spec fn view(&self) -> SpecChildStage {
        SpecChildStage { tag: self.tag@, bind: self.bind@.to_set() }
    }
}

impl ChildStageSyntax {
    /// A child stage with its command and constraints.
    pub fn new(tag: CommandSyntax, bind: Vec<StageConstraint>) -> (r: Self)
        ensures
            r@.tag == tag@,
            r@.bind == bind@.to_set(),
    {
        ChildStageSyntax { tag, bind }
    }

    /// A child stage with no constraints.
    pub fn new_no_bind(tag: CommandSyntax) -> (r: Self)
        ensures
            r@.tag == tag@,
            r@.bind == Set::<StageConstraint>::empty(),
    {
        let r = Self::new(tag, Vec::new());
        assert(r@.bind =~= Set::<StageConstraint>::empty());
        r
    }

    /// The command of the stage.
    pub fn tag(&self) -> (r: &CommandSyntax)
        ensures
            r@ == self@.tag,
    {
        &self.tag
    }
}

/// A flow with stages: its opening command, its child stages and its closing command.
#[derive(Debug)]
pub struct BranchSyntax {
    pub start: CommandSyntax,
    pub child_state: Vec<ChildStageSyntax>,
    pub end: CommandSyntax,
}

/// Index of the first stage whose keyword starts `tag`.
pub open spec fn matched_stage(stages: Seq<ChildStageSyntax>, tag: Seq<char>, i: int) -> Option<int>
    decreases stages.len() - i,
{
    if i < 0 || i >= stages.len() {
        None
    } else if stages[i]@.tag.key.is_prefix_of(tag) {
        Some(i)
    } else {
        matched_stage(stages, tag, i + 1)
    }
}

impl BranchSyntax {
    pub fn new(start: CommandSyntax, child: Vec<ChildStageSyntax>, end: CommandSyntax) -> (r: Self)
        ensures
            r.start == start,
            r.child_state == child,
            r.end == end,
    {
        BranchSyntax { start, child_state: child, end }
    }

    /// The first child stage whose keyword starts `tag`.
    pub fn get_matched_type(&self, tag: &str) -> (r: Option<&ChildStageSyntax>)
        ensures
            match matched_stage(self.child_state@, tag@, 0) {
                Some(i) => r == Some(&self.child_state@[i]),
                None => r is None,
            },
    {
        let mut i: usize = 0;
        while i < self.child_state.len()
            invariant
                i <= self.child_state@.len(),
                matched_stage(self.child_state@, tag@, i as int) == matched_stage(self.child_state@, tag@, 0),
            decreases self.child_state@.len() - i,
        {
            if starts_with(tag, self.child_state[i].tag.key.as_str()) {
                return Some(&self.child_state[i]);
            }
            i = i + 1;
        }
        None
    }
}

/// A flow with stages, with its scopes and whether it loops.
#[derive(Debug)]
pub struct BranchSyntaxWrapper {
    pub syntax: BranchSyntax,
    pub scopes: Vec<String>,
    pub auto_loop: bool,
}

/// A command, with the scopes it must stand in.
#[derive(Debug)]
pub struct CommandSyntaxWrapper {
    pub syntax: CommandSyntax,
    pub scope: Vec<String>,
}

/// The kinds of flow-control operator.
#[derive(Debug)]
pub enum OperatorSyntax {
    /// A flow with stages.
    Branch(BranchSyntaxWrapper),
    /// A command.
    Command(CommandSyntaxWrapper),
}

fn to_strings(v: Vec<&str>) -> (r: Vec<String>)
    ensures
        r@.len() == v@.len(),
        forall|i: int| 0 <= i < v@.len() ==> #[trigger] r@[i]@ == v@[i]@,
{
    strings_of(&v)
}

impl OperatorSyntax {
    /// A flow with stages: `block`, the scopes it must stand in, and whether it loops.
    pub fn new_branch(block: BranchSyntax, scope: Vec<&str>, loop_branch: bool) -> (r: Self)
        ensures
            r matches OperatorSyntax::Branch(w) && w.syntax == block && w.auto_loop == loop_branch
                && w.scopes@.len() == scope@.len() && forall|i: int|
                0 <= i < scope@.len() ==> #[trigger] w.scopes@[i]@ == scope@[i]@,
    {
        OperatorSyntax::Branch(BranchSyntaxWrapper { syntax: block, scopes: to_strings(scope), auto_loop: loop_branch })
    }

    /// A command with the scopes it must stand in.
    pub fn new_command(tag: CommandSyntax, scope: Vec<&str>) -> (r: Self)
        ensures
            r matches OperatorSyntax::Command(w) && w.syntax == tag && w.scope@.len() == scope@.len()
                && forall|i: int| 0 <= i < scope@.len() ==> #[trigger] w.scope@[i]@ == scope@[i]@,
    {
        OperatorSyntax::Command(CommandSyntaxWrapper { syntax: tag, scope: to_strings(scope) })
    }

    /// The keyword that opens the operator.
    pub open spec fn start_tag(&self) -> Seq<char> {
        match self {
            OperatorSyntax::Branch(item) => item.syntax.start@.key,
            OperatorSyntax::Command(item) => item.syntax@.key,
        }
    }

    /// The keyword that opens the operator.
    pub fn get_start_tag(&self) -> (r: &str)
        ensures
            r@ == self.start_tag(),
    {
        match self {
            OperatorSyntax::Branch(item) => item.syntax.start.key(),
            OperatorSyntax::Command(item) => item.syntax.key(),
        }
    }

    /// The scopes the operator must stand in.
    pub open spec fn scope(&self) -> Vec<String> {
        match self {
            OperatorSyntax::Branch(item) => item.scopes,
            OperatorSyntax::Command(item) => item.scope,
        }
    }

    /// The scopes the operator must stand in.
    pub fn get_scope(&self) -> (r: &Vec<String>)
        ensures
            *r == self.scope(),
    {
        match self {
            OperatorSyntax::Branch(item) => &item.scopes,
            OperatorSyntax::Command(item) => &item.scope,
        }
    }

    /// The node that the source `start` of this operator builds: a flow with its first
    /// stage read by the opening command, or a command with its parameters.
    pub fn build_ast(&self, start: &str) -> (r: TmplResult<TemplateAst>)
        requires
            match self {
                OperatorSyntax::Branch(b) => spec_build(b.syntax.start@, start@) is Some,
                OperatorSyntax::Command(c) => spec_build(c.syntax@, start@) is Some,
            },
        ensures
            match self {
                OperatorSyntax::Branch(b) => match spec_build(b.syntax.start@, start@)->0 {
                    Ok((k, ps)) => r matches Ok(TemplateAst::ItemBranch(key, stages, l)) && key@
                        == b.syntax.start@.key && l == b.auto_loop && stages@.len() == 1
                        && stages@[0].key@ == k && params_view(stages@[0].params@) == ps
                        && stages@[0].child_stages@.len() == 0,
                    Err(_) => r matches Err(TemplateError::GenericError(_)),
                },
                OperatorSyntax::Command(c) => match spec_build(c.syntax@, start@)->0 {
                    Ok((_, ps)) => r matches Ok(TemplateAst::ItemCommand(key, params)) && key@
                        == c.syntax@.key && params_view(params@) == ps,
                    Err(_) => r matches Err(TemplateError::GenericError(_)),
                },
            },
    {
        match self {
            OperatorSyntax::Branch(b) => {
                let first = b.syntax.start.build(start)?;
                let mut stages: Vec<Branch> = Vec::new();
                stages.push(first);
                Ok(TemplateAst::ItemBranch(String::from_str(b.syntax.start.key()), stages, b.auto_loop))
            },
            OperatorSyntax::Command(c) => {
                let built = c.syntax.build(start)?;
                Ok(TemplateAst::ItemCommand(String::from_str(c.syntax.key()), built.params))
            },
        }
    }
}

} // verus!
