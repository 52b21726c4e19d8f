use vstd::prelude::*;

use crate::error::{TemplateError, TmplResult};
use crate::expression::manager::{native_of, ExpressionManager, NativePrimitive};
use crate::expression::output::{tree_variables, tree_vars, trees_vars};
use crate::expression::primitive::{call_native, spec_native, values_view};
use crate::expression::specs::{strings_view, trees_view, ExpressionAST, ExpressionAstTree, SpecTree};
use crate::value::{SpecValue, TemplateValue};

verus! {

/// `s` without its first `k` elements (empty when it has no more).
pub open spec fn safe_skip<A>(s: Seq<A>, k: int) -> Seq<A> {
    if k >= s.len() {
        seq![]
    } else if k <= 0 {
        s
    } else {
        s.skip(k)
    }
}

/// What running a tree gives: a tree, or the texts of a failed check.
pub type SpecRun = Result<SpecTree, (Seq<char>, Seq<char>)>;

/// The results `a` then `b`, or the first error.
pub open spec fn combine(
    a: Result<Seq<SpecTree>, (Seq<char>, Seq<char>)>,
    b: Result<Seq<SpecTree>, (Seq<char>, Seq<char>)>,
) -> Result<Seq<SpecTree>, (Seq<char>, Seq<char>)> {
    match a {
        Err(e) => Err(e),
        Ok(xs) => match b {
            Err(e) => Err(e),
            Ok(ys) => Ok(xs + ys),
        },
    }
}

pub open spec fn lift(a: SpecRun) -> Result<Seq<SpecTree>, (Seq<char>, Seq<char>)> {
    match a {
        Err(e) => Err(e),
        Ok(x) => Ok(seq![x]),
    }
}

/// All the trees are values.
pub open spec fn all_values(cs: Seq<SpecTree>) -> bool {
    forall|i: int| 0 <= i < cs.len() ==> (#[trigger] cs[i]) is Value
}

/// The values of trees that are values.
pub open spec fn tree_values(cs: Seq<SpecTree>) -> Seq<SpecValue> {
    Seq::new(cs.len(), |i: int| cs[i]->Value_0)
}

/// A tree run with the values of its variables, given in pre-order in `vals` (`None`
/// where a variable has no value): a variable with a value becomes that value; a
/// primitive whose arguments all become values and that the engine computes becomes its
/// result; the rest is kept. The first failed check is the result.
pub open spec fn spec_run(natives: Seq<(Seq<char>, NativePrimitive)>, t: SpecTree, vals: Seq<Option<SpecValue>>) -> SpecRun
    decreases t, 1int,
{
    match t {
        SpecTree::Value(v) => Ok(SpecTree::Value(v)),
        SpecTree::Variable(n) => if vals.len() > 0 && vals[0] is Some {
            Ok(SpecTree::Value(vals[0]->Some_0))
        } else {
            Ok(SpecTree::Variable(n))
        },
        SpecTree::Primitive(name, ch) => match spec_run_all(natives, ch, vals) {
            Err(e) => Err(e),
            Ok(cs) => if all_values(cs) {
                match native_of(natives, name) {
                    Some(p) => match spec_native(p, tree_values(cs)) {
                        Ok(v) => Ok(SpecTree::Value(v)),
                        Err(e) => Err(e),
                    },
                    None => Ok(SpecTree::Primitive(name, cs)),
                }
            } else {
                Ok(SpecTree::Primitive(name, cs))
            },
        },
    }
}

/// The trees `ch` run in turn, each with the values that follow those of the ones before.
pub open spec fn spec_run_all(natives: Seq<(Seq<char>, NativePrimitive)>, ch: Seq<SpecTree>, vals: Seq<Option<SpecValue>>) -> Result<Seq<SpecTree>, (Seq<char>, Seq<char>)>
    decreases ch, 0int,
{
    if ch.len() == 0 {
        Ok(seq![])
    } else {
        combine(
            lift(spec_run(natives, ch[0], vals)),
            spec_run_all(natives, ch.drop_first(), safe_skip(vals, tree_vars(ch[0]).len() as int)),
        )
    }
}

/// `r` is the result `s`: the same tree, or a check error with the same texts.
pub open spec fn run_result(r: TmplResult<ExpressionAstTree>, s: SpecRun) -> bool {
    match s {
        Ok(t) => r matches Ok(x) && x.spec_view() == t,
        Err((a, b)) => r matches Err(TemplateError::CheckError(x, y)) && x@ == a && y@ == b,
    }
}

pub open spec fn opt_view(o: Option<TemplateValue>) -> Option<SpecValue> {
    match o {
        Some(v) => Some(v.spec_view()),
        None => None,
    }
}

pub open spec fn opts_view(v: Seq<Option<TemplateValue>>) -> Seq<Option<SpecValue>> {
    Seq::new(v.len(), |i: int| opt_view(v[i]))
}

proof fn lemma_skip_skip<A>(s: Seq<A>, a: int, b: int)
    requires
        0 <= a <= s.len(),
        0 <= b,
    ensures
        safe_skip(safe_skip(s, a), b) =~= safe_skip(s, if a + b <= s.len() { a + b } else { s.len() as int }),
{
}

proof fn lemma_trees_vars_skip(ch: Seq<SpecTree>, i: int)
    requires
        0 <= i < ch.len(),
    ensures
        trees_vars(ch.skip(i)) == tree_vars(ch[i]) + trees_vars(ch.skip(i + 1)),
{
    assert(ch.skip(i)[0] == ch[i]);
    assert(ch.skip(i).drop_first() =~= ch.skip(i + 1));
}

/// `getter` may answer `v` when asked for the variable `name`.
pub open spec fn answers<F: Fn(&str) -> Option<TemplateValue>>(getter: F, name: Seq<char>, v: Option<TemplateValue>) -> bool {
    exists|s: &str| s@ == name && #[trigger] call_ensures(getter, (s,), v)
}

impl ExpressionManager {
    /// Runs `t` with the values from position `start` of `vals`; gives the result and the
    /// position after the values of its variables.
    #[verifier::loop_isolation(false)]
    fn run_at(&self, t: &ExpressionAstTree, vals: &Vec<Option<TemplateValue>>, start: usize) -> (r: (TmplResult<ExpressionAstTree>, usize))
        requires
            start <= vals@.len(),
        ensures
            run_result(r.0, spec_run(self.spec_view().natives, t.spec_view(), safe_skip(opts_view(vals@), start as int))),
            r.0 is Ok ==> r.1 == if start + tree_vars(t.spec_view()).len() <= vals@.len() {
                start + tree_vars(t.spec_view()).len()
            } else {
                vals@.len() as int
            },
        decreases t,
    {
        let ghost natives = self.spec_view().natives;
        let ghost vv = opts_view(vals@);
        match t {
            ExpressionAstTree::ItemValue(v) => (Ok(ExpressionAstTree::ItemValue(v.clone())), start),
            ExpressionAstTree::ItemVariable(name) => {
                if start < vals.len() {
                    assert(safe_skip(vv, start as int)[0] == opt_view(vals@[start as int]));
                    match &vals[start] {
                        Some(v) => (Ok(ExpressionAstTree::ItemValue(v.clone())), start + 1),
                        None => (Ok(ExpressionAstTree::ItemVariable(name.clone())), start + 1),
                    }
                } else {
                    (Ok(ExpressionAstTree::ItemVariable(name.clone())), start)
                }
            },
            ExpressionAstTree::ItemPrimitive(name, ch) => {
                let ghost cv = trees_view(ch@);
                let ghost v0 = safe_skip(vv, start as int);
                let mut out: Vec<ExpressionAstTree> = Vec::new();
                let mut cursor = start;
                let mut i: usize = 0;
                assert(cv.skip(0) =~= cv);
                assert(trees_view(out@) + Seq::<SpecTree>::empty() =~= trees_view(out@));
                while i < ch.len()
                    invariant
                        i <= ch@.len(),
                        start <= cursor <= vals@.len(),
                        cv == trees_view(ch@),
                        spec_run_all(natives, cv, v0) == combine(
                            Ok(trees_view(out@)),
                            spec_run_all(natives, cv.skip(i as int), safe_skip(vv, cursor as int)),
                        ),
                        (if start + trees_vars(cv).len() <= vals@.len() {
                            start + trees_vars(cv).len()
                        } else {
                            vals@.len() as int
                        }) == (if cursor + trees_vars(cv.skip(i as int)).len() <= vals@.len() {
                            cursor + trees_vars(cv.skip(i as int)).len()
                        } else {
                            vals@.len() as int
                        }),
                    decreases ch@.len() - i,
                {
                    proof {
                        assert(decreases_to!(*t => t->ItemPrimitive_1));
                        assert(decreases_to!(t->ItemPrimitive_1 => t->ItemPrimitive_1[i as int]));
                        lemma_trees_vars_skip(cv, i as int);
                        assert(cv.skip(i as int)[0] == cv[i as int]);
                        assert(cv.skip(i as int).drop_first() =~= cv.skip(i + 1));
                        assert(cv[i as int] == ch@[i as int].spec_view());
                    }
                    let ghost vc = safe_skip(vv, cursor as int);
                    let ghost cnt = tree_vars(cv[i as int]).len() as int;
                    let ghost tail = spec_run_all(natives, cv.skip(i + 1), safe_skip(vc, cnt));
                    assert(spec_run_all(natives, cv.skip(i as int), vc) == combine(
                        lift(spec_run(natives, cv[i as int], vc)),
                        tail,
                    ));
                    let (res, next) = self.run_at(&ch[i], vals, cursor);
                    match res {
                        Err(e) => {
                            return (Err(e), cursor);
                        },
                        Ok(x) => {
                            proof {
                                lemma_skip_skip(vv, cursor as int, cnt);
                                assert(safe_skip(vc, cnt) == safe_skip(vv, next as int));
                            }
                            let ghost before = trees_view(out@);
                            out.push(x);
                            assert(trees_view(out@) =~= before + seq![x.spec_view()]);
                            assert(combine(Ok(before), combine(lift(Ok(x.spec_view())), tail)) == combine(
                                Ok(trees_view(out@)),
                                tail,
                            )) by {
                                match tail {
                                    Ok(ys) => {
                                        assert(before + (seq![x.spec_view()] + ys) =~= trees_view(out@) + ys);
                                    },
                                    Err(_) => {},
                                }
                            }
                        },
                    }
                    cursor = next;
                    i = i + 1;
                }
                assert(cv.skip(ch@.len() as int) =~= Seq::<SpecTree>::empty());
                assert(trees_vars(Seq::<SpecTree>::empty()) =~= Seq::<Seq<char>>::empty());
                let ghost cs = trees_view(out@);
                assert(spec_run_all(natives, cv, v0) == Ok::<Seq<SpecTree>, (Seq<char>, Seq<char>)>(cs)) by {
                    assert(cs + Seq::<SpecTree>::empty() =~= cs);
                }
                let mut params: Vec<TemplateValue> = Vec::new();
                let mut all = true;
                let mut j: usize = 0;
                while j < out.len()
                    invariant
                        j <= out@.len(),
                        cs == trees_view(out@),
                        all == (forall|k: int| 0 <= k < j ==> (#[trigger] cs[k]) is Value),
                        all ==> params@.len() == j,
                        all ==> forall|k: int| 0 <= k < j ==> #[trigger] params@[k].spec_view() == cs[k]->Value_0,
                    decreases out@.len() - j,
                {
                    assert(cs[j as int] == out@[j as int].spec_view());
                    match &out[j] {
                        ExpressionAstTree::ItemValue(v) => {
                            if all {
                                params.push(v.clone());
                            }
                        },
                        _ => {
                            all = false;
                        },
                    }
                    j = j + 1;
                }
                if all {
                    assert(values_view(params@) =~= tree_values(cs));
                    match self.native(name) {
                        Some(p) => {
                            match call_native(p, params) {
                                Ok(v) => (Ok(ExpressionAstTree::ItemValue(v)), cursor),
                                Err(e) => (Err(e), cursor),
                            }
                        },
                        None => (Ok(ExpressionAstTree::ItemPrimitive(name.clone(), out)), cursor),
                    }
                } else {
                    (Ok(ExpressionAstTree::ItemPrimitive(name.clone(), out)), cursor)
                }
            },
        }
    }

    /// Runs a tree with the values of its variables given in pre-order (see
    /// [`spec_run`]).
    pub fn run_with_values(&self, ast: &ExpressionAstTree, values: &Vec<Option<TemplateValue>>) -> (r: TmplResult<ExpressionAstTree>)
        ensures
            run_result(r, spec_run(self.spec_view().natives, ast.spec_view(), opts_view(values@))),
    {
        assert(safe_skip(opts_view(values@), 0) =~= opts_view(values@));
        let (r, _) = self.run_at(ast, values, 0);
        r
    }

    /// Runs a tree, asking `variable_getter` for the value of each variable (in
    /// pre-order); see [`spec_run`] for what is done with the answers.
    pub fn runner<F: Fn(&str) -> Option<TemplateValue>>(&self, ast: &ExpressionAstTree, variable_getter: &F) -> (r: TmplResult<ExpressionAstTree>)
        requires
            forall|s: &str| #[trigger] call_requires(*variable_getter, (s,)),
        ensures
            exists|vals: Seq<Option<TemplateValue>>|
                {
                    &&& vals.len() == tree_vars(ast.spec_view()).len()
                    &&& forall|i: int|
                        0 <= i < vals.len() ==> #[trigger] answers(*variable_getter, tree_vars(ast.spec_view())[i], vals[i])
                    &&& run_result(r, spec_run(self.spec_view().natives, ast.spec_view(), opts_view(vals)))
                },
    {
        let ghost names_spec = tree_vars(ast.spec_view());
        let names = tree_variables(ast);
        assert(strings_view(names@) == names_spec);
        let mut values: Vec<Option<TemplateValue>> = Vec::new();
        let mut i: usize = 0;
        while i < names.len()
            invariant
                forall|s: &str| #[trigger] call_requires(*variable_getter, (s,)),
                i <= names@.len(),
                strings_view(names@) == names_spec,
                values@.len() == i,
                forall|k: int| 0 <= k < i ==> #[trigger] answers(*variable_getter, names_spec[k], values@[k]),
            decreases names@.len() - i,
        {
            let s = names[i].as_str();
            let v = variable_getter(s);
            assert(s@ == names_spec[i as int]);
            let ghost old_values = values@;
            values.push(v);
            assert(call_ensures(*variable_getter, (s,), values@[i as int]));
            assert(answers(*variable_getter, names_spec[i as int], values@[i as int]));
            assert forall|k: int| 0 <= k < i + 1 implies #[trigger] answers(*variable_getter, names_spec[k], values@[k]) by {
                if k < i {
                    assert(values@[k] == old_values[k]);
                }
            }
            i = i + 1;
        }
        let r = self.run_with_values(ast, &values);
        assert(values@.len() == tree_vars(ast.spec_view()).len());
        let ghost w = values@;
        assert(forall|k: int| 0 <= k < w.len() ==> #[trigger] answers(*variable_getter, tree_vars(ast.spec_view())[k], w[k]));
        assert(run_result(r, spec_run(self.spec_view().natives, ast.spec_view(), opts_view(w))));
        r
    }

    /// Computes what can be computed of an expression before any variable has a value.
    pub fn optimize(&self, expr: ExpressionAST) -> (r: TmplResult<ExpressionAST>)
        ensures
            match spec_run(self.spec_view().natives, expr.ast.spec_view(), seq![]) {
                Ok(t) => r matches Ok(x) && x.ast.spec_view() == t && strings_view(x.variables@) == tree_vars(t),
                Err((a, b)) => r matches Err(TemplateError::CheckError(x, y)) && x@ == a && y@ == b,
            },
    {
        let values: Vec<Option<TemplateValue>> = Vec::new();
        assert(opts_view(values@) =~= Seq::<Option<SpecValue>>::empty());
        match self.run_with_values(&expr.ast, &values) {
            Ok(t) => Ok(ExpressionAST::from(t)),
            Err(e) => Err(e),
        }
    }
}

} // verus!

verus! {

/// Running a tree without variables does not depend on the values given.
pub proof fn lemma_run_without_variables(
    natives: Seq<(Seq<char>, NativePrimitive)>,
    t: SpecTree,
    v1: Seq<Option<SpecValue>>,
    v2: Seq<Option<SpecValue>>,
)
    requires
        tree_vars(t).len() == 0,
    ensures
        spec_run(natives, t, v1) == spec_run(natives, t, v2),
    decreases t, 1int,
{
    match t {
        SpecTree::Primitive(_, ch) => {
            lemma_run_all_without_variables(natives, ch, v1, v2);
        },
        _ => {},
    }
}

proof fn lemma_run_all_without_variables(
    natives: Seq<(Seq<char>, NativePrimitive)>,
    ch: Seq<SpecTree>,
    v1: Seq<Option<SpecValue>>,
    v2: Seq<Option<SpecValue>>,
)
    requires
        trees_vars(ch).len() == 0,
    ensures
        spec_run_all(natives, ch, v1) == spec_run_all(natives, ch, v2),
    decreases ch, 0int,
{
    if ch.len() > 0 {
        assert(tree_vars(ch[0]).len() == 0);
        lemma_run_without_variables(natives, ch[0], v1, v2);
        lemma_run_all_without_variables(
            natives,
            ch.drop_first(),
            safe_skip(v1, tree_vars(ch[0]).len() as int),
            safe_skip(v2, tree_vars(ch[0]).len() as int),
        );
    }
}

} // verus!
