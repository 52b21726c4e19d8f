use vstd::prelude::*;
use vstd::string::*;

use crate::error::{TemplateError, TmplResult};
use crate::expression::manager::NativePrimitive;
use crate::expression::output::{tree_variables, tree_vars};
use crate::expression::primitive::{call_native, spec_native, values_view};
use crate::expression::specs::{strings_view, trees_view, ExpressionAstTree, SpecTree};
use crate::value::{SpecValue, TemplateValue};

verus! {

/// Why running a tree failed: a check of a primitive, or a primitive that is not known.
pub enum RunError {
    Check(Seq<char>, Seq<char>),
    Missing(Seq<char>),
}

/// The value given for the variable `n`: the first one listed under it (nothing if none).
pub open spec fn value_of(vt: Seq<(Seq<char>, SpecValue)>, n: Seq<char>) -> SpecValue
    decreases vt.len(),
{
    if vt.len() == 0 {
        SpecValue::Null
    } else if vt[0].0 == n {
        vt[0].1
    } else {
        value_of(vt.drop_first(), n)
    }
}

/// The primitive given for the name `n`: the first one listed under it.
pub open spec fn prim_of(pt: Seq<(Seq<char>, Option<NativePrimitive>)>, n: Seq<char>) -> Option<NativePrimitive>
    decreases pt.len(),
{
    if pt.len() == 0 {
        None
    } else if pt[0].0 == n {
        pt[0].1
    } else {
        prim_of(pt.drop_first(), n)
    }
}

/// The names of the primitives of a tree, in pre-order.
pub open spec fn tree_prims(t: SpecTree) -> Seq<Seq<char>>
    decreases t, 1int,
{
    match t {
        SpecTree::Primitive(n, ch) => seq![n] + trees_prims(ch),
        _ => seq![],
    }
}

/// The names of the primitives of the trees `ch`, in pre-order.
pub open spec fn trees_prims(ch: Seq<SpecTree>) -> Seq<Seq<char>>
    decreases ch, 0int,
{
    if ch.len() == 0 {
        seq![]
    } else {
        tree_prims(ch[0]) + trees_prims(ch.drop_first())
    }
}

/// The position of the first primitive among `rs` from `i` on.
pub open spec fn first_prim(rs: Seq<SpecTree>, i: int) -> Option<int>
    decreases rs.len() - i,
{
    if i < 0 || i >= rs.len() {
        None
    } else if rs[i] is Primitive {
        Some(i)
    } else {
        first_prim(rs, i + 1)
    }
}

/// The arguments of a primitive: values as they are, variables by the values given.
pub open spec fn param_values(rs: Seq<SpecTree>, vt: Seq<(Seq<char>, SpecValue)>) -> Seq<SpecValue> {
    Seq::new(
        rs.len(),
        |i: int|
            match rs[i] {
                SpecTree::Value(v) => v,
                SpecTree::Variable(n) => value_of(vt, n),
                _ => SpecValue::Null,
            },
    )
}

/// A tree evaluated with the values `vt` of its variables and the primitives `pt` of its
/// names: a value or a variable is kept; a primitive evaluates its arguments (the first
/// error among them is the result), gives back the first argument that is still a
/// primitive, else is computed from the values of its arguments, the variables by their
/// given values; a name without a primitive is an error.
pub open spec fn spec_eval(t: SpecTree, vt: Seq<(Seq<char>, SpecValue)>, pt: Seq<(Seq<char>, Option<NativePrimitive>)>) -> Result<SpecTree, RunError>
    decreases t, 1int,
{
    match t {
        SpecTree::Primitive(name, ch) => match spec_eval_all(ch, vt, pt) {
            Err(e) => Err(e),
            Ok(rs) => match first_prim(rs, 0) {
                Some(k) => Ok(rs[k]),
                None => match prim_of(pt, name) {
                    None => Err(RunError::Missing(name)),
                    Some(p) => match spec_native(p, param_values(rs, vt)) {
                        Ok(v) => Ok(SpecTree::Value(v)),
                        Err((a, b)) => Err(RunError::Check(a, b)),
                    },
                },
            },
        },
        _ => Ok(t),
    }
}

/// The trees `ch` evaluated in turn; the first error is the result.
pub open spec fn spec_eval_all(ch: Seq<SpecTree>, vt: Seq<(Seq<char>, SpecValue)>, pt: Seq<(Seq<char>, Option<NativePrimitive>)>) -> Result<Seq<SpecTree>, RunError>
    decreases ch, 0int,
{
    if ch.len() == 0 {
        Ok(seq![])
    } else {
        match spec_eval(ch[0], vt, pt) {
            Err(e) => Err(e),
            Ok(x) => match spec_eval_all(ch.drop_first(), vt, pt) {
                Err(e) => Err(e),
                Ok(xs) => Ok(seq![x] + xs),
            },
        }
    }
}

/// `r` is the outcome `s` of evaluating a tree.
pub open spec fn eval_result(r: TmplResult<ExpressionAstTree>, s: Result<SpecTree, RunError>) -> bool {
    match s {
        Ok(t) => r matches Ok(x) && x.spec_view() == t,
        Err(RunError::Check(a, b)) => r matches Err(TemplateError::CheckError(x, y)) && x@ == a && y@ == b,
        Err(RunError::Missing(n)) => r matches Err(TemplateError::ExistsError(x)) && x@ == n,
    }
}

pub open spec fn vtable_view(v: Seq<(String, TemplateValue)>) -> Seq<(Seq<char>, SpecValue)> {
    Seq::new(v.len(), |i: int| (v[i].0@, v[i].1.spec_view()))
}

pub open spec fn ptable_view(v: Seq<(String, Option<NativePrimitive>)>) -> Seq<(Seq<char>, Option<NativePrimitive>)> {
    Seq::new(v.len(), |i: int| (v[i].0@, v[i].1))
}

fn value_in(vt: &Vec<(String, TemplateValue)>, n: &String) -> (r: TemplateValue)
    ensures
        r.spec_view() == value_of(vtable_view(vt@), n@),
{
    let ghost tv = vtable_view(vt@);
    let mut i: usize = 0;
    assert(tv.skip(0) =~= tv);
    while i < vt.len()
        invariant
            i <= vt@.len(),
            tv == vtable_view(vt@),
            value_of(tv, n@) == value_of(tv.skip(i as int), n@),
        decreases vt@.len() - i,
    {
        let ghost rest = tv.skip(i as int);
        assert(rest[0] == tv[i as int]);
        assert(rest.drop_first() =~= tv.skip(i + 1));
        if vt[i].0 == *n {
            return vt[i].1.clone();
        }
        i = i + 1;
    }
    TemplateValue::Null
}

fn prim_in(pt: &Vec<(String, Option<NativePrimitive>)>, n: &String) -> (r: Option<NativePrimitive>)
    ensures
        r == prim_of(ptable_view(pt@), n@),
{
    let ghost tv = ptable_view(pt@);
    let mut i: usize = 0;
    assert(tv.skip(0) =~= tv);
    while i < pt.len()
        invariant
            i <= pt@.len(),
            tv == ptable_view(pt@),
            prim_of(tv, n@) == prim_of(tv.skip(i as int), n@),
        decreases pt@.len() - i,
    {
        let ghost rest = tv.skip(i as int);
        assert(rest[0] == tv[i as int]);
        assert(rest.drop_first() =~= tv.skip(i + 1));
        if pt[i].0 == *n {
            return pt[i].1;
        }
        i = i + 1;
    }
    None
}

/// Evaluates a tree (see [`spec_eval`]).
#[verifier::loop_isolation(false)]
pub fn eval_tree(t: &ExpressionAstTree, vt: &Vec<(String, TemplateValue)>, pt: &Vec<(String, Option<NativePrimitive>)>) -> (r: TmplResult<ExpressionAstTree>)
    ensures
        eval_result(r, spec_eval(t.spec_view(), vtable_view(vt@), ptable_view(pt@))),
    decreases t,
{
    let ghost vv = vtable_view(vt@);
    let ghost pv = ptable_view(pt@);
    match t {
        ExpressionAstTree::ItemValue(v) => Ok(ExpressionAstTree::ItemValue(v.clone())),
        ExpressionAstTree::ItemVariable(n) => Ok(ExpressionAstTree::ItemVariable(n.clone())),
        ExpressionAstTree::ItemPrimitive(name, ch) => {
            let ghost cv = trees_view(ch@);
            let mut rs: Vec<ExpressionAstTree> = Vec::new();
            let mut i: usize = 0;
            assert(cv.skip(0) =~= cv);
            assert(trees_view(rs@) + Seq::<SpecTree>::empty() =~= trees_view(rs@));
            while i < ch.len()
                invariant
                    i <= ch@.len(),
                    cv == trees_view(ch@),
                    spec_eval_all(cv, vv, pv) == (match spec_eval_all(cv.skip(i as int), vv, pv) {
                        Err(e) => Err(e),
                        Ok(ys) => Ok(trees_view(rs@) + ys),
                    }),
                decreases ch@.len() - i,
            {
                proof {
                    assert(decreases_to!(*t => t->ItemPrimitive_1));
                    assert(decreases_to!(t->ItemPrimitive_1 => t->ItemPrimitive_1[i as int]));
                    assert(cv.skip(i as int)[0] == cv[i as int]);
                    assert(cv.skip(i as int).drop_first() =~= cv.skip(i + 1));
                    assert(cv[i as int] == ch@[i as int].spec_view());
                }
                match eval_tree(&ch[i], vt, pt) {
                    Err(e) => {
                        return Err(e);
                    },
                    Ok(x) => {
                        let ghost before = trees_view(rs@);
                        rs.push(x);
                        assert(trees_view(rs@) =~= before + seq![x.spec_view()]);
                        proof {
                            match spec_eval_all(cv.skip(i + 1), vv, pv) {
                                Ok(ys) => {
                                    assert(before + (seq![x.spec_view()] + ys) =~= trees_view(rs@) + ys);
                                },
                                Err(_) => {},
                            }
                        }
                    },
                }
                i = i + 1;
            }
            assert(cv.skip(ch@.len() as int) =~= Seq::<SpecTree>::empty());
            let ghost rv = trees_view(rs@);
            assert(spec_eval_all(cv, vv, pv) == Ok::<Seq<SpecTree>, RunError>(rv)) by {
                assert(rv + Seq::<SpecTree>::empty() =~= rv);
            }
            let mut params: Vec<TemplateValue> = Vec::new();
            let mut j: usize = 0;
            while j < rs.len()
                invariant
                    j <= rs@.len(),
                    rv == trees_view(rs@),
                    first_prim(rv, 0) == first_prim(rv, j as int),
                    params@.len() == j,
                    forall|k: int| 0 <= k < j ==> #[trigger] params@[k].spec_view() == param_values(rv, vv)[k],
                decreases rs@.len() - j,
            {
                assert(rv[j as int] == rs@[j as int].spec_view());
                match &rs[j] {
                    ExpressionAstTree::ItemValue(v) => {
                        params.push(v.clone());
                    },
                    ExpressionAstTree::ItemVariable(n) => {
                        params.push(value_in(vt, n));
                    },
                    ExpressionAstTree::ItemPrimitive(_, _) => {
                        let mut rs = rs;
                        let x = rs.remove(j);
                        return Ok(x);
                    },
                }
                j = j + 1;
            }
            assert(values_view(params@) =~= param_values(rv, vv));
            match prim_in(pt, name) {
                None => Err(TemplateError::ExistsError(name.clone())),
                Some(p) => match call_native(p, params) {
                    Ok(v) => Ok(ExpressionAstTree::ItemValue(v)),
                    Err(e) => Err(e),
                },
            }
        },
    }
}

/// Appends the names of the primitives of `t` to `names`, in pre-order.
#[verifier::loop_isolation(false)]
fn put_primitives(t: &ExpressionAstTree, names: &mut Vec<String>)
    ensures
        strings_view(final(names)@) == strings_view(old(names)@) + tree_prims(t.spec_view()),
    decreases t,
{
    let ghost base = strings_view(names@);
    match t {
        ExpressionAstTree::ItemPrimitive(name, child) => {
            names.push(name.clone());
            let ghost b1 = strings_view(names@);
            assert(b1 =~= base + seq![name@]);
            let ghost tv = trees_view(child@);
            let mut i: usize = 0;
            assert(tv.skip(0) =~= tv);
            assert(strings_view(names@) + trees_prims(tv.skip(0)) =~= b1 + trees_prims(tv));
            while i < child.len()
                invariant
                    i <= child@.len(),
                    strings_view(names@) + trees_prims(tv.skip(i as int)) == b1 + trees_prims(tv),
                decreases child@.len() - i,
            {
                let ghost rest = tv.skip(i as int);
                assert(rest[0] == child@[i as int].spec_view());
                assert(rest.drop_first() =~= tv.skip(i + 1));
                proof {
                    assert(decreases_to!(*t => t->ItemPrimitive_1));
                    assert(decreases_to!(t->ItemPrimitive_1 => t->ItemPrimitive_1[i as int]));
                }
                put_primitives(&child[i], names);
                assert(strings_view(names@) + trees_prims(tv.skip(i + 1)) =~= b1 + trees_prims(tv));
                i = i + 1;
            }
            assert(trees_prims(tv.skip(child@.len() as int)) =~= Seq::<Seq<char>>::empty()) by {
                assert(tv.skip(child@.len() as int) =~= Seq::<SpecTree>::empty());
            }
            assert(strings_view(names@) =~= base + tree_prims(t.spec_view()));
        },
        _ => {
            assert(strings_view(names@) =~= base + tree_prims(t.spec_view()));
        },
    }
}

/// `f` may answer `v` when asked for the variable `name`.
pub open spec fn answers_value<V: Fn(&str) -> TemplateValue>(f: V, name: Seq<char>, v: TemplateValue) -> bool {
    exists|s: &str| s@ == name && #[trigger] call_ensures(f, (s,), v)
}

/// `f` may answer `p` when asked for the primitive `name`.
pub open spec fn answers_prim<P: Fn(&str) -> Option<NativePrimitive>>(f: P, name: Seq<char>, p: Option<NativePrimitive>) -> bool {
    exists|s: &str| s@ == name && #[trigger] call_ensures(f, (s,), p)
}

impl ExpressionAstTree {
    /// Evaluates the tree, asking `primitive_func` for the primitive of each name and
    /// `variable_func` for the value of each variable (see [`spec_eval`] for what is done
    /// with the answers).
    pub fn run<P: Fn(&str) -> Option<NativePrimitive>, V: Fn(&str) -> TemplateValue>(&self, primitive_func: P, variable_func: V) -> (r: TmplResult<ExpressionAstTree>)
        requires
            forall|s: &str| #[trigger] call_requires(primitive_func, (s,)),
            forall|s: &str| #[trigger] call_requires(variable_func, (s,)),
        ensures
            exists|vt: Seq<(Seq<char>, SpecValue)>, pt: Seq<(Seq<char>, Option<NativePrimitive>)>|
                {
                    &&& vt.len() == tree_vars(self.spec_view()).len()
                    &&& pt.len() == tree_prims(self.spec_view()).len()
                    &&& forall|i: int|
                        0 <= i < vt.len() ==> vt[i].0 == tree_vars(self.spec_view())[i] && exists|v: TemplateValue|
                            v.spec_view() == vt[i].1 && #[trigger] answers_value(variable_func, vt[i].0, v)
                    &&& forall|i: int|
                        0 <= i < pt.len() ==> pt[i].0 == tree_prims(self.spec_view())[i] && #[trigger] answers_prim(
                            primitive_func,
                            pt[i].0,
                            pt[i].1,
                        )
                    &&& eval_result(r, spec_eval(self.spec_view(), vt, pt))
                },
    {
        let names = tree_variables(self);
        let ghost nv = tree_vars(self.spec_view());
        let mut vt: Vec<(String, TemplateValue)> = Vec::new();
        let mut i: usize = 0;
        while i < names.len()
            invariant
                forall|s: &str| #[trigger] call_requires(variable_func, (s,)),
                i <= names@.len(),
                strings_view(names@) == nv,
                vt@.len() == i,
                forall|k: int| 0 <= k < i ==> (#[trigger] vt@[k]).0@ == nv[k] && answers_value(variable_func, nv[k], vt@[k].1),
            decreases names@.len() - i,
        {
            let s = names[i].as_str();
            let v = variable_func(s);
            assert(call_ensures(variable_func, (s,), v));
            assert(answers_value(variable_func, nv[i as int], v));
            vt.push((names[i].clone(), v));
            i = i + 1;
        }
        let mut pnames: Vec<String> = Vec::new();
        assert(strings_view(pnames@) =~= Seq::<Seq<char>>::empty());
        put_primitives(self, &mut pnames);
        assert(strings_view(pnames@) =~= tree_prims(self.spec_view()));
        let ghost pn = tree_prims(self.spec_view());
        let mut pt: Vec<(String, Option<NativePrimitive>)> = Vec::new();
        let mut j: usize = 0;
        while j < pnames.len()
            invariant
                forall|s: &str| #[trigger] call_requires(primitive_func, (s,)),
                j <= pnames@.len(),
                strings_view(pnames@) == pn,
                pt@.len() == j,
                forall|k: int| 0 <= k < j ==> (#[trigger] pt@[k]).0@ == pn[k] && answers_prim(primitive_func, pn[k], pt@[k].1),
            decreases pnames@.len() - j,
        {
            let s = pnames[j].as_str();
            let p = primitive_func(s);
            assert(call_ensures(primitive_func, (s,), p));
            assert(answers_prim(primitive_func, pn[j as int], p));
            pt.push((pnames[j].clone(), p));
            j = j + 1;
        }
        let r = eval_tree(self, &vt, &pt);
        let ghost vtv = vtable_view(vt@);
        let ghost ptv = ptable_view(pt@);
        assert forall|k: int| 0 <= k < vtv.len() implies vtv[k].0 == nv[k] && exists|v: TemplateValue|
            v.spec_view() == vtv[k].1 && #[trigger] answers_value(variable_func, vtv[k].0, v) by {
            assert(vt@[k].0@ == nv[k]);
            assert(answers_value(variable_func, nv[k], vt@[k].1));
        }
        assert forall|k: int| 0 <= k < ptv.len() implies ptv[k].0 == pn[k] && #[trigger] answers_prim(primitive_func, ptv[k].0, ptv[k].1) by {
            assert(pt@[k].0@ == pn[k]);
        }
        r
    }
}

} // verus!
