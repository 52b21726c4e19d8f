use vstd::prelude::*;

use crate::error::TmplResult;
use crate::expression::specs::{clone_strings, irs_view, strings_view, symbol_text, ExpressionIR, SpecIR, SpecSymbol, SymbolType};
use crate::expression::stack::{spec_end_child, spec_push, ExpressionStack};
use crate::value::parse::spec_value_from;
use crate::value::{SpecValue, TemplateValue};

verus! {

/// A symbol whose text is `(`.
pub open spec fn is_block_start(x: SpecIR) -> bool {
    x matches SpecIR::Symbol(s) && symbol_text(s) == seq!['(']
}

/// From position `i` on, each opening bracket becomes a primitive named after the last
/// piece of the variable just before it (which loses that piece), or else a group (the
/// outer `None` marks the inputs on which this cannot complete: a variable without pieces
/// before a bracket).
pub open spec fn spec_mark_starts(s: Seq<SpecIR>, i: int) -> Option<Seq<SpecIR>>
    decreases s.len() - i,
{
    if i < 0 || i >= s.len() {
        Some(s)
    } else if is_block_start(s[i]) {
        if i > 0 && s[i - 1] is Variable {
            let vars = s[i - 1]->Variable_0;
            if vars.len() == 0 {
                None
            } else {
                spec_mark_starts(
                    s.update(i - 1, SpecIR::Variable(vars.drop_last())).update(i, SpecIR::Primitive(vars.last(), seq![])),
                    i + 1,
                )
            }
        } else {
            spec_mark_starts(s.update(i, SpecIR::Group(seq![])), i + 1)
        }
    } else {
        spec_mark_starts(s, i + 1)
    }
}

/// Closes the innermost open part, if one is open inside the whole expression.
pub open spec fn end_checked(st: Seq<SpecIR>) -> Option<Seq<SpecIR>> {
    if st.len() >= 2 {
        Some(spec_end_child(st))
    } else {
        None
    }
}

/// The stack once one part is read: a closing bracket closes the open part (and the
/// primitive around it, if any), a comma closes the open part and opens a new group, a
/// variable of one piece that is a number becomes that number, an empty variable is
/// dropped, a primitive is opened with a group for its arguments, a group is opened, and
/// the rest is added to the open part (the outer `None` marks a closing bracket or comma
/// with nothing open).
pub open spec fn spec_stack_step(st: Seq<SpecIR>, item: SpecIR) -> Option<Seq<SpecIR>> {
    match item {
        SpecIR::Symbol(SpecSymbol::BlockEnd) => if st.len() >= 2 && st[st.len() - 2] is Primitive {
            match end_checked(st) {
                None => None,
                Some(st1) => end_checked(st1),
            }
        } else {
            end_checked(st)
        },
        SpecIR::Symbol(SpecSymbol::BlockCut) => match end_checked(st) {
            None => None,
            Some(st1) => Some(st1.push(SpecIR::Group(seq![]))),
        },
        SpecIR::Variable(var) => if var.len() == 1 {
            match spec_value_from(var[0]) {
                SpecValue::Number(n) => Some(spec_push(st, SpecIR::Value(SpecValue::Number(n)))),
                _ => Some(spec_push(st, item)),
            }
        } else if var.len() > 1 {
            Some(spec_push(st, item))
        } else {
            Some(st)
        },
        SpecIR::Primitive(_, _) => Some(st.push(item).push(SpecIR::Group(seq![]))),
        SpecIR::Group(_) => Some(st.push(item)),
        _ => Some(spec_push(st, item)),
    }
}

/// The stack once all of `items` are read in turn.
pub open spec fn spec_run_stack(items: Seq<SpecIR>, st: Seq<SpecIR>) -> Option<Seq<SpecIR>>
    decreases items.len(),
{
    if items.len() == 0 {
        Some(st)
    } else {
        match spec_stack_step(st, items[0]) {
            None => None,
            Some(st1) => spec_run_stack(items.drop_first(), st1),
        }
    }
}

/// The parts of an expression with its brackets resolved into groups and primitives (the
/// outer `None` marks the inputs on which this cannot complete).
pub open spec fn spec_parse_groups(src: Seq<SpecIR>) -> Option<Seq<SpecIR>> {
    match spec_mark_starts(src, 0) {
        None => None,
        Some(s1) => match spec_run_stack(s1, seq![SpecIR::Group(seq![])]) {
            None => None,
            Some(st) => Some(st[0]->Group_0),
        },
    }
}

impl ExpressionIR {
    /// Resolves the brackets of an expression (see [`spec_parse_groups`]).
    pub fn parse_groups(src: &mut Vec<ExpressionIR>) -> (r: TmplResult<()>)
        requires
            spec_parse_groups(irs_view(old(src)@)) is Some,
        ensures
            r is Ok,
            irs_view(final(src)@) == spec_parse_groups(irs_view(old(src)@))->0,
    {
        let ghost s0 = irs_view(src@);
        let mut i: usize = 0;
        while i < src.len()
            invariant
                i <= src@.len(),
                spec_mark_starts(irs_view(src@), i as int) == spec_mark_starts(s0, 0),
                spec_mark_starts(s0, 0) is Some,
            decreases src@.len() - i,
        {
            let ghost cur = irs_view(src@);
            let start = match &src[i] {
                ExpressionIR::ItemSymbol(sym) => {
                    let t = sym.to_string();
                    proof {
                        reveal_strlit("(");
                    }
                    let open = String::from_str("(");
                    t == open
                },
                _ => false,
            };
            proof {
                reveal_strlit("(");
                assert("("@ =~= seq!['(']);
                assert(cur[i as int] == src@[i as int].spec_view());
            }
            assert(start == is_block_start(cur[i as int]));
            if start {
                let mut done = false;
                if i > 0 {
                    if let ExpressionIR::ItemVariable(vars) = &src[i - 1] {
                        let ghost vv = strings_view(vars@);
                        assert(cur[i - 1] == SpecIR::Variable(vv));
                        let mut rest = clone_strings(vars);
                        let last = rest.pop().unwrap();
                        assert(strings_view(rest@) =~= vv.drop_last());
                        let empty: Vec<ExpressionIR> = Vec::new();
                        assert(irs_view(empty@) =~= Seq::<SpecIR>::empty());
                        let name = ExpressionIR::ItemPrimitive(last, empty);
                        assert(name.spec_view() =~~= SpecIR::Primitive(vv.last(), seq![]));
                        src[i - 1] = ExpressionIR::ItemVariable(rest);
                        src[i] = name;
                        assert(irs_view(src@) =~= cur.update(i - 1, SpecIR::Variable(vv.drop_last())).update(
                            i as int,
                            SpecIR::Primitive(vv.last(), seq![]),
                        ));
                        done = true;
                    }
                }
                if !done {
                    let empty: Vec<ExpressionIR> = Vec::new();
                    assert(irs_view(empty@) =~= Seq::<SpecIR>::empty());
                    let g = ExpressionIR::ItemGroup(empty);
                    assert(g.spec_view() =~~= SpecIR::Group(seq![]));
                    src[i] = g;
                    assert(irs_view(src@) =~= cur.update(i as int, SpecIR::Group(seq![])));
                }
            }
            i = i + 1;
        }
        let ghost s1 = irs_view(src@);
        assert(spec_mark_starts(s1, src@.len() as int) == Some(s1));
        let mut stack = ExpressionStack::default();
        let ghost total = spec_run_stack(s1, seq![SpecIR::Group(seq![])]);
        while src.len() != 0
            invariant
                stack.wf(),
                total is Some,
                spec_run_stack(irs_view(src@), stack.spec_view()) == total,
            decreases src@.len(),
        {
            let ghost items = irs_view(src@);
            let ghost st = stack.spec_view();
            let item = src.remove(0);
            assert(items[0] == item.spec_view());
            assert(irs_view(src@) =~= items.drop_first());
            assert(spec_stack_step(st, items[0]) is Some);
            match item {
                ExpressionIR::ItemSymbol(SymbolType::BlockEnd) => {
                    let n = stack.data.len();
                    let prim = n >= 2 && match &stack.data[n - 2] {
                        ExpressionIR::ItemPrimitive(_, _) => true,
                        _ => false,
                    };
                    if prim {
                        stack.end_child();
                    }
                    stack.end_child();
                },
                ExpressionIR::ItemSymbol(SymbolType::BlockCut) => {
                    stack.end_child();
                    let empty: Vec<ExpressionIR> = Vec::new();
                    assert(irs_view(empty@) =~= Seq::<SpecIR>::empty());
                    stack.new_child(ExpressionIR::ItemGroup(empty));
                },
                ExpressionIR::ItemVariable(var) => {
                    if var.len() == 1 {
                        let v = TemplateValue::from(var[0].as_str());
                        match v {
                            TemplateValue::Number(num) => stack.push(ExpressionIR::ItemValue(TemplateValue::Number(num))),
                            _ => stack.push(ExpressionIR::ItemVariable(var)),
                        }
                    } else if var.len() > 1 {
                        stack.push(ExpressionIR::ItemVariable(var));
                    }
                },
                ExpressionIR::ItemPrimitive(name, child) => {
                    stack.new_child(ExpressionIR::ItemPrimitive(name, child));
                    let empty: Vec<ExpressionIR> = Vec::new();
                    assert(irs_view(empty@) =~= Seq::<SpecIR>::empty());
                    stack.new_child(ExpressionIR::ItemGroup(empty));
                },
                ExpressionIR::ItemGroup(child) => {
                    stack.new_child(ExpressionIR::ItemGroup(child));
                },
                other => {
                    stack.push(other);
                },
            }
            assert(stack.spec_view() == spec_stack_step(st, items[0])->0);
        }
        assert(irs_view(src@) =~= Seq::<SpecIR>::empty());
        *src = stack.close();
        Ok(())
    }
}

} // verus!

verus! {

/// A bracket: an opening bracket (a symbol whose text is `(`), a closing bracket or a
/// comma.
pub open spec fn is_bracket(x: SpecIR) -> bool {
    is_block_start(x) || x == SpecIR::Symbol(SpecSymbol::BlockEnd) || x == SpecIR::Symbol(SpecSymbol::BlockCut)
}

/// No bracket stands in the part, at any depth.
pub open spec fn bracket_free(x: SpecIR) -> bool
    decreases x,
{
    match x {
        SpecIR::Primitive(_, g) => forall|i: int| 0 <= i < g.len() ==> bracket_free(#[trigger] g[i]),
        SpecIR::Group(g) => forall|i: int| 0 <= i < g.len() ==> bracket_free(#[trigger] g[i]),
        _ => !is_bracket(x),
    }
}

/// The groups and primitives of the part hold no bracket.
pub open spec fn nested_bracket_free(x: SpecIR) -> bool {
    (x is Group || x is Primitive) ==> bracket_free(x)
}

proof fn lemma_mark_starts_result(s: Seq<SpecIR>, i: int)
    requires
        0 <= i,
        spec_mark_starts(s, i) is Some,
        forall|k: int| 0 <= k < s.len() ==> nested_bracket_free(#[trigger] s[k]),
        forall|k: int| 0 <= k < i && k < s.len() ==> !is_block_start(#[trigger] s[k]),
    ensures
        ({
            let r = spec_mark_starts(s, i)->0;
            &&& forall|k: int| 0 <= k < r.len() ==> nested_bracket_free(#[trigger] r[k])
            &&& forall|k: int| 0 <= k < r.len() ==> !is_block_start(#[trigger] r[k])
        }),
    decreases s.len() - i,
{
    if i < s.len() {
        if is_block_start(s[i]) {
            if i > 0 && s[i - 1] is Variable {
                let vars = s[i - 1]->Variable_0;
                let t = s.update(i - 1, SpecIR::Variable(vars.drop_last())).update(i, SpecIR::Primitive(vars.last(), seq![]));
                assert forall|k: int| 0 <= k < t.len() implies nested_bracket_free(#[trigger] t[k]) by {
                    if k != i && k != i - 1 {
                        assert(t[k] == s[k]);
                    }
                }
                assert forall|k: int| 0 <= k < i + 1 && k < t.len() implies !is_block_start(#[trigger] t[k]) by {
                    if k != i && k != i - 1 {
                        assert(t[k] == s[k]);
                    }
                }
                lemma_mark_starts_result(t, i + 1);
            } else {
                let t = s.update(i, SpecIR::Group(seq![]));
                assert forall|k: int| 0 <= k < t.len() implies nested_bracket_free(#[trigger] t[k]) by {
                    if k != i {
                        assert(t[k] == s[k]);
                    }
                }
                assert forall|k: int| 0 <= k < i + 1 && k < t.len() implies !is_block_start(#[trigger] t[k]) by {
                    if k != i {
                        assert(t[k] == s[k]);
                    }
                }
                lemma_mark_starts_result(t, i + 1);
            }
        } else {
            lemma_mark_starts_result(s, i + 1);
        }
    }
}

/// The stack holds the group of the whole expression first, and no bracket.
pub open spec fn stack_bracket_free(st: Seq<SpecIR>) -> bool {
    &&& st.len() >= 1
    &&& st[0] is Group
    &&& forall|i: int| 0 <= i < st.len() ==> bracket_free(#[trigger] st[i])
}

proof fn lemma_push_bracket_free(st: Seq<SpecIR>, x: SpecIR)
    requires
        stack_bracket_free(st),
        bracket_free(x),
    ensures
        stack_bracket_free(spec_push(st, x)),
{
    if !(x matches SpecIR::Group(g) && g.len() == 0) {
        let c = st.last();
        let r = spec_push(st, x);
        assert(bracket_free(r[st.len() - 1])) by {
            match c {
                SpecIR::Group(g) => {
                    let h = g.push(x);
                    assert(r[st.len() - 1] == SpecIR::Group(h));
                    assert forall|i: int| 0 <= i < h.len() implies bracket_free(#[trigger] h[i]) by {
                        if i < g.len() {
                            assert(h[i] == g[i]);
                        }
                    }
                },
                SpecIR::Primitive(n, g) => {
                    let h = g.push(x);
                    assert(r[st.len() - 1] == SpecIR::Primitive(n, h));
                    assert forall|i: int| 0 <= i < h.len() implies bracket_free(#[trigger] h[i]) by {
                        if i < g.len() {
                            assert(h[i] == g[i]);
                        }
                    }
                },
                _ => {},
            }
        }
        assert forall|i: int| 0 <= i < r.len() implies bracket_free(#[trigger] r[i]) by {
            if i != st.len() - 1 {
                assert(r[i] == st[i]);
            }
        }
        if st.len() == 1 {
            assert(r[0] is Group);
        } else {
            assert(r[0] == st[0]);
        }
    }
}

proof fn lemma_end_bracket_free(st: Seq<SpecIR>)
    requires
        stack_bracket_free(st),
        st.len() >= 2,
    ensures
        stack_bracket_free(spec_end_child(st)),
{
    let u = st.drop_last();
    assert(stack_bracket_free(u)) by {
        assert forall|i: int| 0 <= i < u.len() implies bracket_free(#[trigger] u[i]) by {
            assert(u[i] == st[i]);
        }
    }
    lemma_push_bracket_free(u, st.last());
}

proof fn lemma_run_stack_result(items: Seq<SpecIR>, st: Seq<SpecIR>)
    requires
        stack_bracket_free(st),
        forall|k: int| 0 <= k < items.len() ==> nested_bracket_free(#[trigger] items[k]),
        forall|k: int| 0 <= k < items.len() ==> !is_block_start(#[trigger] items[k]),
        spec_run_stack(items, st) is Some,
    ensures
        stack_bracket_free(spec_run_stack(items, st)->0),
    decreases items.len(),
{
    if items.len() > 0 {
        let item = items[0];
        assert(nested_bracket_free(item) && !is_block_start(item));
        match spec_stack_step(st, item) {
            None => {},
            Some(st1) => {
                match item {
                    SpecIR::Symbol(SpecSymbol::BlockEnd) => {
                        lemma_end_bracket_free(st);
                        if st.len() >= 2 && st[st.len() - 2] is Primitive {
                            lemma_end_bracket_free(spec_end_child(st));
                        }
                    },
                    SpecIR::Symbol(SpecSymbol::BlockCut) => {
                        lemma_end_bracket_free(st);
                        let e = spec_end_child(st);
                        assert(st1 == e.push(SpecIR::Group(seq![])));
                        assert forall|i: int| 0 <= i < st1.len() implies bracket_free(#[trigger] st1[i]) by {
                            if i < e.len() {
                                assert(st1[i] == e[i]);
                            }
                        }
                    },
                    SpecIR::Variable(var) => {
                        if var.len() == 1 {
                            match spec_value_from(var[0]) {
                                SpecValue::Number(n) => {
                                    lemma_push_bracket_free(st, SpecIR::Value(SpecValue::Number(n)));
                                },
                                _ => {
                                    lemma_push_bracket_free(st, item);
                                },
                            }
                        } else if var.len() > 1 {
                            lemma_push_bracket_free(st, item);
                        }
                    },
                    SpecIR::Primitive(_, _) => {
                        let e = st.push(item);
                        assert(st1 == e.push(SpecIR::Group(seq![])));
                        assert forall|i: int| 0 <= i < st1.len() implies bracket_free(#[trigger] st1[i]) by {
                            if i < st.len() {
                                assert(st1[i] == st[i]);
                            }
                        }
                    },
                    SpecIR::Group(_) => {
                        assert forall|i: int| 0 <= i < st1.len() implies bracket_free(#[trigger] st1[i]) by {
                            if i < st.len() {
                                assert(st1[i] == st[i]);
                            }
                        }
                    },
                    _ => {
                        lemma_push_bracket_free(st, item);
                    },
                }
                let rest = items.drop_first();
                assert forall|k: int| 0 <= k < rest.len() implies nested_bracket_free(#[trigger] rest[k]) && !is_block_start(rest[k]) by {
                    assert(rest[k] == items[k + 1]);
                }
                lemma_run_stack_result(rest, st1);
            },
        }
    }
}

/// Resolving brackets leaves none: when the groups and primitives of the input hold no
/// bracket, no part of the result holds one, at any depth.
pub proof fn lemma_parse_groups_bracket_free(src: Seq<SpecIR>)
    requires
        spec_parse_groups(src) is Some,
        forall|k: int| 0 <= k < src.len() ==> nested_bracket_free(#[trigger] src[k]),
    ensures
        forall|k: int| 0 <= k < spec_parse_groups(src)->0.len() ==> bracket_free(#[trigger] spec_parse_groups(src)->0[k]),
{
    lemma_mark_starts_result(src, 0);
    let s1 = spec_mark_starts(src, 0)->0;
    let st0 = seq![SpecIR::Group(seq![])];
    assert(stack_bracket_free(st0)) by {
        assert forall|i: int| 0 <= i < st0.len() implies bracket_free(#[trigger] st0[i]) by {
            assert(st0[i] == SpecIR::Group(seq![]));
        }
    }
    lemma_run_stack_result(s1, st0);
    let st = spec_run_stack(s1, st0)->0;
    assert(bracket_free(st[0]));
}

} // verus!
