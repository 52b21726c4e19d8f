use vstd::prelude::*;
use vstd::string::*;

use crate::ast::{asts_view, Branch, SpecAst, SpecStage, TemplateAst, TemplateAstValue};
use crate::error::{TemplateError, TmplResult};
use crate::syntax::{BranchSyntaxWrapper, OperatorSyntax};

use crate::utils::debug::{debug_list_text, debug_str, debug_strings, debug_text};

verus! {

/// The nodes read so far: the root list, and the flows still open (innermost last).
pub struct TmplAstStack {
    pub root: Vec<TemplateAst>,
    pub child_stack: Vec<TemplateAst>,
}

impl Default for TmplAstStack {
    fn default() -> (r: Self)
        ensures
            r.root@.len() == 0,
            r.child_stack@.len() == 0,
    {
        TmplAstStack { root: Vec::new(), child_stack: Vec::new() }
    }
}

/// `target` with `node` added: static text right after static text joins it.
pub open spec fn merge_text(target: Seq<SpecAst>, node: SpecAst) -> Seq<SpecAst> {
    if node is Text && target.len() > 0 && target.last() is Text {
        target.drop_last().push(SpecAst::Text(target.last()->Text_0 + node->Text_0))
    } else {
        target.push(node)
    }
}

/// Why a node could not be added: the open flow has no stage (`Exists`), or what is
/// open is not a flow (`Generic`).
pub enum AddError {
    Exists,
    Generic,
}

/// The root list and open flows once `node` is added: a flow is opened; another node is
/// added to the last stage of the innermost open flow, or to the root list when no flow
/// is open.
pub open spec fn spec_add_node(root: Seq<SpecAst>, stack: Seq<SpecAst>, node: SpecAst) -> Result<(Seq<SpecAst>, Seq<SpecAst>), AddError> {
    if node is Branch {
        Ok((root, stack.push(node)))
    } else if stack.len() == 0 {
        Ok((merge_text(root, node), stack))
    } else {
        match stack.last() {
            SpecAst::Branch(k, stages, l) => if stages.len() == 0 {
                Err(AddError::Exists)
            } else {
                let st = stages.last();
                Ok(
                    (
                        root,
                        stack.drop_last().push(
                            SpecAst::Branch(
                                k,
                                stages.drop_last().push(SpecStage { key: st.key, params: st.params, children: merge_text(st.children, node) }),
                                l,
                            ),
                        ),
                    ),
                )
            },
            _ => Err(AddError::Generic),
        }
    }
}

/// `r` is the outcome `s` of adding a node to `stack`; the message of an open node that
/// is not a flow shows the open nodes (their `Debug` text).
pub open spec fn add_result(r: TmplResult<()>, stack: TmplAstStack, s: Result<(Seq<SpecAst>, Seq<SpecAst>), AddError>) -> bool {
    match s {
        Ok((root, open)) => r is Ok && asts_view(stack.root@) == root && asts_view(stack.child_stack@) == open,
        Err(AddError::Exists) => r matches Err(TemplateError::ExistsError(m))
            && m@ == "BUG：分支对象不存在默认的子分支，请排查入栈相关的代码"@,
        Err(AddError::Generic) => r matches Err(TemplateError::GenericError(m))
            && exists|d: Seq<char>| m@ == "BUG：栈中永远不会包含控制对象,当前栈信息如下：("@ + d + ")！"@,
    }
}

/// Adds `node` to `target`; static text right after static text joins it.
fn push_merged(target: &mut Vec<TemplateAst>, node: TemplateAst)
    ensures
        asts_view(final(target)@) == merge_text(asts_view(old(target)@), node.spec_view()),
{
    let ghost tv = asts_view(target@);
    let ghost nv = node.spec_view();
    let joins = match (&node, target.last()) {
        (TemplateAst::ItemValue(TemplateAstValue::ItemString(_)), Some(TemplateAst::ItemValue(TemplateAstValue::ItemString(_)))) => true,
        _ => false,
    };
    if joins {
        assert(tv.last() == target@[target@.len() - 1].spec_view());
        let last = target.pop().unwrap();
        assert(asts_view(target@) =~= tv.drop_last());
        match (last, node) {
            (TemplateAst::ItemValue(TemplateAstValue::ItemString(old)), TemplateAst::ItemValue(TemplateAstValue::ItemString(new))) => {
                let mut joined = old;
                joined.append(new.as_str());
                target.push(TemplateAst::ItemValue(TemplateAstValue::ItemString(joined)));
            },
            _ => {},
        }
        assert(asts_view(target@) =~= merge_text(tv, nv));
    } else {
        proof {
            if nv is Text && tv.len() > 0 {
                assert(tv.last() == target@[target@.len() - 1].spec_view());
            }
        }
        target.push(node);
        assert(asts_view(target@) =~= merge_text(tv, nv));
    }
}

/// The first operator whose opening keyword is `key`.
pub open spec fn operator_by_tag(ops: Seq<OperatorSyntax>, key: Seq<char>, i: int) -> Option<int>
    decreases ops.len() - i,
{
    if i < 0 || i >= ops.len() {
        None
    } else if ops[i].start_tag() == key {
        Some(i)
    } else {
        operator_by_tag(ops, key, i + 1)
    }
}

/// The operator that opened the innermost open flow is not a command.
pub open spec fn top_is_flow(stack: Seq<SpecAst>, ops: Seq<OperatorSyntax>) -> bool {
    stack.len() > 0 && stack.last() is Branch ==> match operator_by_tag(ops, stack.last()->Branch_0, 0) {
        Some(i) => ops[i] is Branch,
        None => true,
    }
}

/// The key of a flow or a command.
pub open spec fn node_tag(n: SpecAst) -> Option<Seq<char>> {
    match n {
        SpecAst::Branch(k, _, _) => Some(k),
        SpecAst::Command(k, _) => Some(k),
        _ => None,
    }
}

/// `t` is the key of a node of the stack.
pub open spec fn has_tag(stack: Seq<SpecAst>, t: Seq<char>) -> bool {
    exists|i: int| 0 <= i < stack.len() && #[trigger] node_tag(stack[i]) == Some(t)
}

/// Every scope is the key of a node of the stack.
pub open spec fn in_scope(stack: Seq<SpecAst>, scope: Seq<Seq<char>>) -> bool {
    forall|j: int| 0 <= j < scope.len() ==> has_tag(stack, #[trigger] scope[j])
}

fn not_found_message(key: &str) -> (r: String)
    ensures
        r@ == "未发现名为 "@ + key@ + " 的匹配"@,
{
    let mut m = String::from_str("未发现名为 ");
    m.append(key);
    m.append(" 的匹配");
    m
}

/// The pretty `Debug` text of a list of nodes, written by std's `format!` (`{:#?}`);
/// nothing is claimed of the text.
#[verifier::external_body]
fn pretty_debug_nodes(v: &Vec<TemplateAst>) -> String {
    format!("{:#?}", v)
}

/// The `Debug` text of an operator, written by std's `format!` (`{:?}`) with the derived
/// `Debug`; nothing is claimed of the text (the operator has no view that determines it).
#[verifier::external_body]
fn debug_operator(op: &OperatorSyntax) -> String {
    format!("{:?}", op)
}

/// The message of an open node that is not a flow: it shows the open nodes.
fn not_flow_message(stack: &Vec<TemplateAst>) -> (r: String)
    ensures
        exists|d: Seq<char>| r@ == "BUG：栈中永远不会包含控制对象,当前栈信息如下：("@ + d + ")！"@,
{
    let d = pretty_debug_nodes(stack);
    let mut m = String::from_str("BUG：栈中永远不会包含控制对象,当前栈信息如下：(");
    m.append(d.as_str());
    m.append(")！");
    assert(m@ == "BUG：栈中永远不会包含控制对象,当前栈信息如下：("@ + d@ + ")！"@);
    m
}

impl TmplAstStack {
    /// Adds a node (see [`spec_add_node`]).
    pub fn add_node(&mut self, node: TemplateAst) -> (r: TmplResult<()>)
        ensures
            add_result(r, *final(self), spec_add_node(asts_view(old(self).root@), asts_view(old(self).child_stack@), node.spec_view())),
            r is Err ==> *final(self) == *old(self),
    {
        let ghost root = asts_view(self.root@);
        let ghost stack = asts_view(self.child_stack@);
        let ghost nv = node.spec_view();
        if let TemplateAst::ItemBranch(..) = &node {
            self.child_stack.push(node);
            assert(asts_view(self.child_stack@) =~= stack.push(nv));
            return Ok(());
        }
        if self.child_stack.len() == 0 {
            push_merged(&mut self.root, node);
            return Ok(());
        }
        let n = self.child_stack.len();
        assert(stack.last() == self.child_stack@[n - 1].spec_view());
        match &self.child_stack[n - 1] {
            TemplateAst::ItemBranch(_, stages, _) => {
                if stages.len() == 0 {
                    return Err(TemplateError::ExistsError(String::from_str("BUG：分支对象不存在默认的子分支，请排查入栈相关的代码")));
                }
            },
            _ => {
                return Err(TemplateError::GenericError(not_flow_message(&self.child_stack)));
            },
        }
        let last = self.child_stack.pop().unwrap();
        assert(asts_view(self.child_stack@) =~= stack.drop_last());
        match last {
            TemplateAst::ItemBranch(k, stages, l) => {
                let ghost sv = stack.last()->Branch_1;
                let mut stages = stages;
                let mut st = stages.pop().unwrap();
                assert(sv.last() == st.spec_view());
                let ghost before = st.spec_view();
                push_merged(&mut st.child_stages, node);
                let ghost after = st.spec_view();
                assert(after == SpecStage { key: before.key, params: before.params, children: merge_text(before.children, nv) });
                let ghost rest = stages@;
                stages.push(st);
                let item = TemplateAst::ItemBranch(k, stages, l);
                assert(item.spec_view()->Branch_1 =~= sv.drop_last().push(after)) by {
                    assert forall|i: int| 0 <= i < sv.len() - 1 implies #[trigger] item.spec_view()->Branch_1[i] == sv[i] by {
                        assert(stages@[i] == rest[i]);
                    }
                }
                self.child_stack.push(item);
                assert(asts_view(self.child_stack@) =~= stack.drop_last().push(item.spec_view()));
            },
            _ => {},
        }
        Ok(())
    }

    /// Whether a flow is open.
    pub fn has_stack(&self) -> (r: bool)
        ensures
            r == (self.child_stack@.len() > 0),
    {
        self.child_stack.len() > 0
    }

    /// The innermost open flow.
    pub fn last_mut_stack(&mut self) -> (r: Option<&mut TemplateAst>)
        ensures
            old(self).child_stack@.len() == 0 ==> r is None && *final(self) == *old(self),
            old(self).child_stack@.len() > 0 ==> (r matches Some(x) && *x == old(self).child_stack@.last()
                && final(self).root == old(self).root
                && final(self).child_stack@ == old(self).child_stack@.update(
                old(self).child_stack@.len() - 1,
                *final(x),
            )),
    {
        let n = self.child_stack.len();
        if n == 0 {
            None
        } else {
            Some(&mut self.child_stack[n - 1])
        }
    }

    /// The flow operator that opened the innermost open flow, if a flow is open; an error
    /// when no operator opens with its key.
    #[verifier::loop_isolation(false)]
    pub fn get_stack_top_operator<'a>(&self, operator_arr: &'a Vec<OperatorSyntax>) -> (r: TmplResult<Option<&'a BranchSyntaxWrapper>>)
        requires
            top_is_flow(asts_view(self.child_stack@), operator_arr@),
        ensures
            ({
                let stack = asts_view(self.child_stack@);
                if stack.len() > 0 && stack.last() is Branch {
                    match operator_by_tag(operator_arr@, stack.last()->Branch_0, 0) {
                        Some(i) => r matches Ok(Some(b)) && operator_arr@[i] == OperatorSyntax::Branch(*b),
                        None => r matches Err(TemplateError::GenericError(m))
                            && m@ == "未发现名为 "@ + stack.last()->Branch_0 + " 的匹配"@,
                    }
                } else {
                    r matches Ok(None)
                }
            }),
    {
        let ghost stack = asts_view(self.child_stack@);
        let n = self.child_stack.len();
        if n == 0 {
            return Ok(None);
        }
        assert(stack.last() == self.child_stack@[n - 1].spec_view());
        match &self.child_stack[n - 1] {
            TemplateAst::ItemBranch(key, _, _) => {
                let mut i: usize = 0;
                while i < operator_arr.len()
                    invariant
                        i <= operator_arr@.len(),
                        operator_by_tag(operator_arr@, key@, i as int) == operator_by_tag(operator_arr@, key@, 0),
                    decreases operator_arr@.len() - i,
                {
                    let tag = operator_arr[i].get_start_tag();
                    if crate::expression::parse::str_eq(tag, key.as_str()) {
                        proof {
                            vstd::utf8::encode_utf8_decode_utf8(tag@);
                            vstd::utf8::encode_utf8_decode_utf8(key@);
                            assert(tag@ == key@);
                            assert(operator_arr@[i as int].start_tag() == key@);
                        }
                        match &operator_arr[i] {
                            OperatorSyntax::Branch(b) => {
                                return Ok(Some(b));
                            },
                            OperatorSyntax::Command(_) => {
                                return Err(TemplateError::GenericError(not_found_message(key.as_str())));
                            },
                        }
                    }
                    i = i + 1;
                }
                Err(TemplateError::GenericError(not_found_message(key.as_str())))
            },
            _ => Ok(None),
        }
    }

    /// Checks that every scope is the key of an open node; the message of the error lists
    /// the scopes that are not (their `Debug` text).
    #[verifier::loop_isolation(false)]
    pub fn check_scope(&self, scope: &Vec<String>) -> (r: TmplResult<()>)
        ensures
            in_scope(asts_view(self.child_stack@), crate::expression::specs::strings_view(scope@)) ==> r is Ok,
            !in_scope(asts_view(self.child_stack@), crate::expression::specs::strings_view(scope@)) ==> (r matches Err(
                TemplateError::GenericError(m),
            ) && m@ == scope_error_text(asts_view(self.child_stack@), crate::expression::specs::strings_view(scope@))),
    {
        let ghost stack = asts_view(self.child_stack@);
        let ghost sv = crate::expression::specs::strings_view(scope@);
        let mut missing: Vec<String> = Vec::new();
        let mut j: usize = 0;
        while j < scope.len()
            invariant
                j <= scope@.len(),
                stack == asts_view(self.child_stack@),
                sv == crate::expression::specs::strings_view(scope@),
                missing@.len() == 0 <==> forall|q: int| 0 <= q < j ==> has_tag(stack, #[trigger] sv[q]),
                crate::expression::specs::strings_view(missing@) == missing_scopes(stack, sv.take(j as int)),
            decreases scope@.len() - j,
        {
            let ghost before = missing@;
            let mut found = false;
            let mut i: usize = 0;
            while i < self.child_stack.len()
                invariant
                    i <= self.child_stack@.len(),
                    j < scope@.len(),
                    stack == asts_view(self.child_stack@),
                    sv == crate::expression::specs::strings_view(scope@),
                    found ==> has_tag(stack, sv[j as int]),
                    !found ==> forall|p: int| 0 <= p < i ==> #[trigger] node_tag(stack[p]) != Some(sv[j as int]),
                decreases self.child_stack@.len() - i,
            {
                assert(stack[i as int] == self.child_stack@[i as int].spec_view());
                match self.child_stack[i].get_tag() {
                    Some(t) => {
                        let same = crate::expression::parse::str_eq(t, scope[j].as_str());
                        proof {
                            vstd::utf8::encode_utf8_decode_utf8(t@);
                            vstd::utf8::encode_utf8_decode_utf8(scope@[j as int]@);
                        }
                        if same {
                            assert(t@ == scope@[j as int]@);
                            assert(node_tag(stack[i as int]) == Some(sv[j as int]));
                            found = true;
                        }
                    },
                    None => {},
                }
                i = i + 1;
            }
            if !found {
                missing.push(scope[j].clone());
                assert(!has_tag(stack, sv[j as int]));
            } else {
                assert(has_tag(stack, sv[j as int]));
            }
            proof {
                lemma_missing_push(stack, sv.take(j as int), sv[j as int]);
                assert(sv.take(j + 1) =~= sv.take(j as int).push(sv[j as int]));
                assert(crate::expression::specs::strings_view(missing@) =~= missing_scopes(stack, sv.take(j + 1)));
            }
            j = j + 1;
        }
        assert(sv.take(scope@.len() as int) =~= sv);
        if missing.len() > 0 {
            let d = debug_strings(&missing);
            let mut m = d;
            let ghost dv = m@;
            m.append(" 不在作用域内");
            assert(m@ == dv + " 不在作用域内"@);
            return Err(TemplateError::GenericError(m));
        }
        Ok(())
    }
}

/// The scopes that are not the key of an open node, in order.
pub open spec fn missing_scopes(stack: Seq<SpecAst>, scope: Seq<Seq<char>>) -> Seq<Seq<char>> {
    scope.filter(|t: Seq<char>| !has_tag(stack, t))
}

/// The message of scopes that are not open: their list (its `Debug` text) and
/// ` 不在作用域内`.
pub open spec fn scope_error_text(stack: Seq<SpecAst>, scope: Seq<Seq<char>>) -> Seq<char> {
    debug_list_text(missing_scopes(stack, scope)) + " 不在作用域内"@
}

proof fn lemma_missing_push(stack: Seq<SpecAst>, scope: Seq<Seq<char>>, t: Seq<char>)
    ensures
        missing_scopes(stack, scope.push(t)) == if has_tag(stack, t) {
            missing_scopes(stack, scope)
        } else {
            missing_scopes(stack, scope).push(t)
        },
{
    reveal(Seq::filter);
    assert(scope.push(t).drop_last() =~= scope);
}

impl OperatorSyntax {
    /// Checks that the operator stands inside all of its scopes.
    pub fn check_scope(&self, stack: &TmplAstStack) -> (r: TmplResult<()>)
        ensures
            in_scope(asts_view(stack.child_stack@), crate::expression::specs::strings_view(self.scope()@)) ==> r is Ok,
            !in_scope(asts_view(stack.child_stack@), crate::expression::specs::strings_view(self.scope()@)) ==> (r matches Err(
                TemplateError::GenericError(m),
            ) && exists|d: Seq<char>|
                m@ == "解析"@ + d + " 失败，"@ + debug_text(
                    scope_error_text(asts_view(stack.child_stack@), crate::expression::specs::strings_view(self.scope()@)),
                )),
    {
        match stack.check_scope(self.get_scope()) {
            Ok(_) => Ok(()),
            Err(TemplateError::GenericError(inner)) => {
                let d = debug_operator(self);
                let e = debug_str(inner.as_str());
                let mut m = String::from_str("解析");
                m.append(d.as_str());
                m.append(" 失败，");
                m.append(e.as_str());
                assert(m@ == "解析"@ + d@ + " 失败，"@ + debug_text(inner@));
                Err(TemplateError::GenericError(m))
            },
            Err(other) => Err(other),
        }
    }
}

} // verus!
