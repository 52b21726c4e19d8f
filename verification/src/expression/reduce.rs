use vstd::prelude::*;

use crate::error::TmplResult;
use crate::expression::specs::{irs_view, ExpressionIR, SpecIR};

verus! {

/// The number of parts in `x`, itself included.
pub open spec fn ir_size(x: SpecIR) -> nat
    decreases x, 1int,
{
    match x {
        SpecIR::Primitive(_, c) => 1 + seq_size(c),
        SpecIR::Group(c) => 1 + seq_size(c),
        _ => 1,
    }
}

/// The number of parts in the parts `s`.
pub open spec fn seq_size(s: Seq<SpecIR>) -> nat
    decreases s, 0int,
{
    if s.len() == 0 {
        0
    } else {
        ir_size(s[0]) + seq_size(s.drop_first())
    }
}

pub proof fn lemma_seq_size_concat(a: Seq<SpecIR>, b: Seq<SpecIR>)
    ensures
        seq_size(a + b) == seq_size(a) + seq_size(b),
    decreases a.len(),
{
    if a.len() == 0 {
        assert(a + b =~= b);
    } else {
        assert((a + b).drop_first() =~= a.drop_first() + b);
        assert((a + b)[0] == a[0]);
        lemma_seq_size_concat(a.drop_first(), b);
    }
}

pub proof fn lemma_elem_size(s: Seq<SpecIR>, i: int)
    requires
        0 <= i < s.len(),
    ensures
        ir_size(s[i]) <= seq_size(s),
    decreases i,
{
    if i > 0 {
        lemma_elem_size(s.drop_first(), i - 1);
        assert(s.drop_first()[i - 1] == s[i]);
    }
}

pub proof fn lemma_two_sizes(s: Seq<SpecIR>)
    requires
        s.len() >= 2,
    ensures
        seq_size(s) == ir_size(s[0]) + ir_size(s[1]) + seq_size(s.skip(2)),
{
    assert(s.drop_first().drop_first() =~= s.skip(2));
    assert(s.drop_first()[0] == s[1]);
    assert(seq_size(s) == ir_size(s[0]) + seq_size(s.drop_first()));
    assert(seq_size(s.drop_first()) == ir_size(s.drop_first()[0]) + seq_size(s.drop_first().drop_first()));
}

pub proof fn lemma_first_size(s: Seq<SpecIR>)
    requires
        s.len() >= 1,
    ensures
        seq_size(s) == ir_size(s[0]) + seq_size(s.drop_first()),
        ir_size(s[0]) >= 1,
        seq_size(s.drop_first()) < seq_size(s),
{
}

pub proof fn lemma_single_size(c: SpecIR)
    ensures
        seq_size(seq![c]) == ir_size(c),
{
    assert(seq![c].drop_first() =~= Seq::<SpecIR>::empty());
    assert(seq_size(Seq::<SpecIR>::empty()) == 0);
}

/// The parts of a primitive with its groups compiled.
pub open spec fn descend_children(ch: Seq<SpecIR>) -> Seq<SpecIR>
    decreases seq_size(ch), 1int,
{
    if ch.len() == 0 {
        seq![]
    } else {
        proof {
            lemma_first_size(ch);
        }
        seq![descend_child(ch[0])] + descend_children(ch.drop_first())
    }
}

/// A part of a primitive: a group is compiled, the rest is kept.
pub open spec fn descend_child(x: SpecIR) -> SpecIR
    decreases ir_size(x), 0int,
{
    match x {
        SpecIR::Group(g) => SpecIR::Group(spec_cp(g)),
        _ => x,
    }
}

/// A part with what is inside it compiled: the groups among the arguments of a
/// primitive, and the parts of a group.
pub open spec fn descend(x: SpecIR) -> SpecIR
    decreases ir_size(x), 0int,
{
    match x {
        SpecIR::Primitive(n, ch) => SpecIR::Primitive(n, descend_children(ch)),
        SpecIR::Group(g) => SpecIR::Group(spec_cp(g)),
        _ => x,
    }
}

/// Each part that is not a symbol and is followed by a primitive or a group becomes the
/// first argument of that primitive or the first part of that group (so `a.f(b)` becomes
/// `f(a, b)`); then what is inside the parts is compiled.
pub open spec fn cp_merge(s: Seq<SpecIR>) -> Seq<SpecIR>
    decreases seq_size(s), 1int,
{
    if s.len() == 0 {
        seq![]
    } else {
        let c = s[0];
        if c is Symbol {
            seq![c] + cp_merge(s.drop_first())
        } else if s.len() == 1 {
            seq![descend(c)]
        } else {
            proof {
                lemma_two_sizes(s);
            }
            match s[1] {
                SpecIR::Primitive(name, ch) => seq![
                    SpecIR::Primitive(name, seq![descend_child(c)] + descend_children(ch)),
                ] + cp_merge(s.skip(2)),
                SpecIR::Group(ch) => {
                    proof {
                        lemma_seq_size_concat(seq![c], ch);
                        lemma_single_size(c);
                    }
                    seq![SpecIR::Group(spec_cp(seq![c] + ch))] + cp_merge(s.skip(2))
                },
                _ => seq![descend(c)] + cp_merge(s.drop_first()),
            }
        }
    }
}

/// The parts of an expression with primitives applied to what stands before them (see
/// [`cp_merge`]); a list of at most one part is kept as it is.
pub open spec fn spec_cp(s: Seq<SpecIR>) -> Seq<SpecIR>
    decreases seq_size(s), 2int,
{
    if s.len() <= 1 {
        s
    } else {
        cp_merge(s)
    }
}

#[verifier::loop_isolation(false)]
fn descend_children_exec(ch: Vec<ExpressionIR>) -> (r: Vec<ExpressionIR>)
    ensures
        irs_view(r@) == descend_children(irs_view(ch@)),
    decreases seq_size(irs_view(ch@)), 1int,
{
    let ghost v = irs_view(ch@);
    let mut rest = ch;
    let mut out: Vec<ExpressionIR> = Vec::new();
    assert(irs_view(out@) + descend_children(irs_view(rest@)) =~= descend_children(v));
    while rest.len() > 0
        invariant
            seq_size(irs_view(rest@)) <= seq_size(v),
            irs_view(out@) + descend_children(irs_view(rest@)) == descend_children(v),
        decreases rest@.len(),
    {
        let ghost rv = irs_view(rest@);
        let x = rest.remove(0);
        assert(rv[0] == x.spec_view());
        assert(irs_view(rest@) =~= rv.drop_first());
        proof {
            lemma_first_size(rv);
        }
        let ghost before = irs_view(out@);
        let y = descend_child_exec(x);
        out.push(y);
        assert(irs_view(out@) =~= before + seq![descend_child(rv[0])]);
    }
    assert(descend_children(irs_view(rest@)) =~= Seq::<SpecIR>::empty());
    assert(irs_view(out@) =~= descend_children(v));
    out
}

fn descend_child_exec(x: ExpressionIR) -> (r: ExpressionIR)
    ensures
        r.spec_view() == descend_child(x.spec_view()),
    decreases ir_size(x.spec_view()), 0int,
{
    match x {
        ExpressionIR::ItemGroup(g) => ExpressionIR::ItemGroup(cp_vec(g)),
        other => other,
    }
}

fn descend_exec(x: ExpressionIR) -> (r: ExpressionIR)
    ensures
        r.spec_view() == descend(x.spec_view()),
    decreases ir_size(x.spec_view()), 0int,
{
    match x {
        ExpressionIR::ItemPrimitive(n, ch) => ExpressionIR::ItemPrimitive(n, descend_children_exec(ch)),
        ExpressionIR::ItemGroup(g) => ExpressionIR::ItemGroup(cp_vec(g)),
        other => other,
    }
}

#[verifier::loop_isolation(false)]
fn cp_merge_exec(s: Vec<ExpressionIR>) -> (r: Vec<ExpressionIR>)
    ensures
        irs_view(r@) == cp_merge(irs_view(s@)),
    decreases seq_size(irs_view(s@)), 1int,
{
    let ghost v = irs_view(s@);
    let mut rest = s;
    let mut out: Vec<ExpressionIR> = Vec::new();
    assert(irs_view(out@) + cp_merge(irs_view(rest@)) =~= cp_merge(v));
    while rest.len() > 0
        invariant
            seq_size(irs_view(rest@)) <= seq_size(v),
            irs_view(out@) + cp_merge(irs_view(rest@)) == cp_merge(v),
        decreases rest@.len(),
    {
        let ghost rv = irs_view(rest@);
        let ghost before = irs_view(out@);
        let c = rest.remove(0);
        assert(rv[0] == c.spec_view());
        assert(irs_view(rest@) =~= rv.drop_first());
        proof {
            lemma_first_size(rv);
        }
        if let ExpressionIR::ItemSymbol(_) = &c {
            out.push(c);
            assert(irs_view(out@) =~= before + seq![rv[0]]);
        } else if rest.len() == 0 {
            let y = descend_exec(c);
            out.push(y);
            assert(irs_view(out@) =~= before + seq![descend(rv[0])]);
            assert(cp_merge(irs_view(rest@)) =~= Seq::<SpecIR>::empty());
        } else {
            proof {
                lemma_two_sizes(rv);
            }
            let kind: u8 = match &rest[0] {
                ExpressionIR::ItemPrimitive(_, _) => 0,
                ExpressionIR::ItemGroup(_) => 1,
                _ => 2,
            };
            assert(rv[1] == rest@[0].spec_view());
            if kind == 0 {
                let next = rest.remove(0);
                assert(irs_view(rest@) =~= rv.skip(2));
                match next {
                    ExpressionIR::ItemPrimitive(name, ch) => {
                        let first = descend_child_exec(c);
                        let tail = descend_children_exec(ch);
                        let mut args = vec![first];
                        let ghost fa = irs_view(args@);
                        let mut tail = tail;
                        args.append(&mut tail);
                        assert(irs_view(args@) =~= fa + descend_children(rv[1]->Primitive_1));
                        assert(fa =~= seq![descend_child(rv[0])]);
                        let item = ExpressionIR::ItemPrimitive(name, args);
                        assert(item.spec_view() =~~= SpecIR::Primitive(
                            rv[1]->Primitive_0,
                            seq![descend_child(rv[0])] + descend_children(rv[1]->Primitive_1),
                        ));
                        out.push(item);
                    },
                    _ => {},
                }
                assert(irs_view(out@) =~= before + seq![
                    SpecIR::Primitive(rv[1]->Primitive_0, seq![descend_child(rv[0])] + descend_children(rv[1]->Primitive_1)),
                ]);
            } else if kind == 1 {
                let next = rest.remove(0);
                assert(irs_view(rest@) =~= rv.skip(2));
                match next {
                    ExpressionIR::ItemGroup(ch) => {
                        let mut group = vec![c];
                        let ghost ga = irs_view(group@);
                        let mut ch = ch;
                        let ghost cv = irs_view(ch@);
                        group.append(&mut ch);
                        assert(irs_view(group@) =~= seq![rv[0]] + cv);
                        proof {
                            lemma_seq_size_concat(seq![rv[0]], cv);
                            lemma_single_size(rv[0]);
                        }
                        let compiled = cp_vec(group);
                        out.push(ExpressionIR::ItemGroup(compiled));
                    },
                    _ => {},
                }
                assert(irs_view(out@) =~= before + seq![
                    SpecIR::Group(spec_cp(seq![rv[0]] + rv[1]->Group_0)),
                ]);
            } else {
                let y = descend_exec(c);
                out.push(y);
                assert(irs_view(out@) =~= before + seq![descend(rv[0])]);
            }
        }
    }
    assert(cp_merge(irs_view(rest@)) =~= Seq::<SpecIR>::empty());
    assert(irs_view(out@) =~= cp_merge(v));
    out
}

fn cp_vec(s: Vec<ExpressionIR>) -> (r: Vec<ExpressionIR>)
    ensures
        irs_view(r@) == spec_cp(irs_view(s@)),
    decreases seq_size(irs_view(s@)), 2int,
{
    if s.len() <= 1 {
        s
    } else {
        cp_merge_exec(s)
    }
}

impl ExpressionIR {
    /// Applies primitives to what stands before them (see [`spec_cp`]).
    pub fn compile_primitives(src: &mut Vec<ExpressionIR>) -> (r: TmplResult<()>)
        ensures
            r is Ok,
            irs_view(final(src)@) == spec_cp(irs_view(old(src)@)),
    {
        let mut items: Vec<ExpressionIR> = Vec::new();
        std::mem::swap(src, &mut items);
        *src = cp_vec(items);
        Ok(())
    }
}

/// A part with every group of one part replaced by that part, all the way down.
pub open spec fn spec_flat(x: SpecIR) -> SpecIR
    decreases x, 1int,
{
    match x {
        SpecIR::Primitive(n, ch) => SpecIR::Primitive(n, spec_flat_group(ch)),
        SpecIR::Group(ch) => if ch.len() == 1 {
            spec_flat(ch[0])
        } else {
            SpecIR::Group(spec_flat_group(ch))
        },
        _ => x,
    }
}

/// Each of the parts flattened by [`spec_flat`].
pub open spec fn spec_flat_group(s: Seq<SpecIR>) -> Seq<SpecIR>
    decreases s, 0int,
{
    Seq::new(
        s.len(),
        |i: int|
            if 0 <= i < s.len() {
                spec_flat(s[i])
            } else {
                SpecIR::Group(seq![])
            },
    )
}

fn flat_owned(x: ExpressionIR) -> (r: ExpressionIR)
    ensures
        r.spec_view() == spec_flat(x.spec_view()),
    decreases x,
{
    let ghost gx = x;
    match x {
        ExpressionIR::ItemPrimitive(n, ch) => {
            proof {
                assert(decreases_to!(gx => gx->ItemPrimitive_1));
            }
            ExpressionIR::ItemPrimitive(n, flat_vec(ch))
        },
        ExpressionIR::ItemGroup(ch) => {
            if ch.len() == 1 {
                let mut ch = ch;
                let y = ch.remove(0);
                proof {
                    assert(decreases_to!(gx => gx->ItemGroup_0));
                    assert(decreases_to!(gx->ItemGroup_0 => gx->ItemGroup_0@));
                    assert(decreases_to!(gx->ItemGroup_0@ => gx->ItemGroup_0@[0]));
                }
                flat_owned(y)
            } else {
                proof {
                    assert(decreases_to!(gx => gx->ItemGroup_0));
                }
                ExpressionIR::ItemGroup(flat_vec(ch))
            }
        },
        other => other,
    }
}

#[verifier::loop_isolation(false)]
fn flat_vec(v: Vec<ExpressionIR>) -> (r: Vec<ExpressionIR>)
    ensures
        irs_view(r@) == spec_flat_group(irs_view(v@)),
    decreases v,
{
    let ghost orig = v@;
    let ghost ov = irs_view(v@);
    let mut rest = v;
    let mut out: Vec<ExpressionIR> = Vec::new();
    let mut k: usize = 0;
    let n = rest.len();
    while rest.len() > 0
        invariant
            n == orig.len(),
            rest@ == orig.skip(k as int),
            k <= orig.len(),
            out@.len() == k,
            forall|j: int| 0 <= j < k ==> #[trigger] out@[j].spec_view() == spec_flat(orig[j].spec_view()),
        decreases rest@.len(),
    {
        let x = rest.remove(0);
        assert(x == orig[k as int]);
        proof {
            assert(decreases_to!(v => v@));
            assert(decreases_to!(v@ => v@[k as int]));
        }
        out.push(flat_owned(x));
        assert(rest@ =~= orig.skip(k + 1));
        k = k + 1;
    }
    assert(k == orig.len());
    assert forall|j: int| 0 <= j < orig.len() implies #[trigger] irs_view(out@)[j] == spec_flat_group(ov)[j] by {
        assert(ov[j] == orig[j].spec_view());
        assert(out@[j].spec_view() == spec_flat(orig[j].spec_view()));
        assert(irs_view(out@)[j] == out@[j].spec_view());
        assert(spec_flat_group(ov)[j] == spec_flat(ov[j]));
    }
    assert(irs_view(out@) =~= spec_flat_group(ov));
    out
}

impl ExpressionIR {
    /// Replaces every group of one part by that part, all the way down.
    pub fn flat_depth(src: &mut ExpressionIR) -> (r: TmplResult<()>)
        ensures
            r is Ok,
            final(src).spec_view() == spec_flat(old(src).spec_view()),
    {
        let mut x = ExpressionIR::ItemGroup(Vec::new());
        std::mem::swap(src, &mut x);
        *src = flat_owned(x);
        Ok(())
    }

    /// Flattens each of the parts (see [`spec_flat`]).
    pub fn flat_depth_group(src: &mut Vec<ExpressionIR>) -> (r: TmplResult<()>)
        ensures
            r is Ok,
            irs_view(final(src)@) == spec_flat_group(irs_view(old(src)@)),
    {
        let mut items: Vec<ExpressionIR> = Vec::new();
        std::mem::swap(src, &mut items);
        *src = flat_vec(items);
        Ok(())
    }
}

} // verus!

verus! {

/// No group of one part is left in `x`, at any depth.
pub open spec fn is_flat(x: SpecIR) -> bool
    decreases x,
{
    match x {
        SpecIR::Primitive(_, ch) => forall|i: int| 0 <= i < ch.len() ==> is_flat(#[trigger] ch[i]),
        SpecIR::Group(ch) => ch.len() != 1 && forall|i: int| 0 <= i < ch.len() ==> is_flat(#[trigger] ch[i]),
        _ => true,
    }
}

proof fn lemma_flat_is_flat(x: SpecIR)
    ensures
        is_flat(spec_flat(x)),
    decreases x,
{
    match x {
        SpecIR::Primitive(n, ch) => {
            assert forall|i: int| 0 <= i < ch.len() implies is_flat(#[trigger] spec_flat_group(ch)[i]) by {
                lemma_flat_is_flat(ch[i]);
                assert(spec_flat_group(ch)[i] == spec_flat(ch[i]));
            }
            assert(spec_flat(x) == SpecIR::Primitive(n, spec_flat_group(ch)));
        },
        SpecIR::Group(ch) => {
            if ch.len() == 1 {
                lemma_flat_is_flat(ch[0]);
            } else {
                assert forall|i: int| 0 <= i < ch.len() implies is_flat(#[trigger] spec_flat_group(ch)[i]) by {
                    lemma_flat_is_flat(ch[i]);
                    assert(spec_flat_group(ch)[i] == spec_flat(ch[i]));
                }
                assert(spec_flat(x) == SpecIR::Group(spec_flat_group(ch)));
            }
        },
        _ => {},
    }
}

proof fn lemma_flat_keeps_flat(x: SpecIR)
    requires
        is_flat(x),
    ensures
        spec_flat(x) == x,
    decreases x,
{
    match x {
        SpecIR::Primitive(n, ch) => {
            assert forall|i: int| 0 <= i < ch.len() implies #[trigger] spec_flat_group(ch)[i] == ch[i] by {
                lemma_flat_keeps_flat(ch[i]);
            }
            assert(spec_flat_group(ch) =~= ch);
        },
        SpecIR::Group(ch) => {
            assert forall|i: int| 0 <= i < ch.len() implies #[trigger] spec_flat_group(ch)[i] == ch[i] by {
                lemma_flat_keeps_flat(ch[i]);
            }
            assert(spec_flat_group(ch) =~= ch);
        },
        _ => {},
    }
}

/// Flattening twice is flattening once.
pub proof fn lemma_flat_idempotent(x: SpecIR)
    ensures
        spec_flat(spec_flat(x)) == spec_flat(x),
{
    lemma_flat_is_flat(x);
    lemma_flat_keeps_flat(spec_flat(x));
}

} // verus!
