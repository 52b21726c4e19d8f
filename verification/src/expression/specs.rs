use vstd::prelude::*;

use crate::value::{value_eq, value_eq_exec, SpecValue, TemplateValue};

verus! {

/// The kinds of symbol in an expression: the opening and closing brackets, the comma,
/// and the operators. A symbol is known by its text, so two symbols with the same text
/// are equal.
#[derive(Debug)]
pub enum SymbolType {
    BlockStart,
    BlockEnd,
    BlockCut,
    Custom(String),
}

pub enum SpecSymbol {
    BlockStart,
    BlockEnd,
    BlockCut,
    Custom(Seq<char>),
}

impl SymbolType {
    pub open spec fn spec_view(&self) -> SpecSymbol {
        match self {
            SymbolType::BlockStart => SpecSymbol::BlockStart,
            SymbolType::BlockEnd => SpecSymbol::BlockEnd,
            SymbolType::BlockCut => SpecSymbol::BlockCut,
            SymbolType::Custom(s) => SpecSymbol::Custom(s@),
        }
    }
}

/// The intermediate form of an expression while it is compiled.
#[derive(Debug)]
pub enum ExpressionIR {
    /// A symbol.
    ItemSymbol(SymbolType),
    /// A final value.
    ItemValue(TemplateValue),
    /// A variable, as its dotted path.
    ItemVariable(Vec<String>),
    /// A primitive: name and arguments.
    ItemPrimitive(String, Vec<ExpressionIR>),
    /// A group of expressions.
    ItemGroup(Vec<ExpressionIR>),
}

#[verifier::ext_equal]
pub enum SpecIR {
    Symbol(SpecSymbol),
    Value(SpecValue),
    Variable(Seq<Seq<char>>),
    Primitive(Seq<char>, Seq<SpecIR>),
    Group(Seq<SpecIR>),
}

pub open spec fn strings_view(v: Seq<String>) -> Seq<Seq<char>> {
    Seq::new(v.len(), |i: int| v[i]@)
}

impl ExpressionIR {
    pub open spec fn spec_view(&self) -> SpecIR
        decreases self, 1int,
    {
        match self {
            ExpressionIR::ItemSymbol(s) => SpecIR::Symbol(s.spec_view()),
            ExpressionIR::ItemValue(v) => SpecIR::Value(v.spec_view()),
            ExpressionIR::ItemVariable(v) => SpecIR::Variable(strings_view(v@)),
            ExpressionIR::ItemPrimitive(n, c) => SpecIR::Primitive(n@, irs_view(c@)),
            ExpressionIR::ItemGroup(c) => SpecIR::Group(irs_view(c@)),
        }
    }
}

pub open spec fn irs_view(v: Seq<ExpressionIR>) -> Seq<SpecIR>
    decreases v, 0int,
{
    Seq::new(
        v.len(),
        |i: int|
            if 0 <= i < v.len() {
                v[i].spec_view()
            } else {
                SpecIR::Group(Seq::empty())
            },
    )
}

/// The tree of a compiled expression.
#[derive(Debug)]
pub enum ExpressionAstTree {
    /// A value.
    ItemValue(TemplateValue),
    /// A variable.
    ItemVariable(String),
    /// A primitive: name and arguments.
    ItemPrimitive(String, Vec<ExpressionAstTree>),
}

#[verifier::ext_equal]
pub enum SpecTree {
    Value(SpecValue),
    Variable(Seq<char>),
    Primitive(Seq<char>, Seq<SpecTree>),
}

impl ExpressionAstTree {
    pub open spec fn spec_view(&self) -> SpecTree
        decreases self, 1int,
    {
        match self {
            ExpressionAstTree::ItemValue(v) => SpecTree::Value(v.spec_view()),
            ExpressionAstTree::ItemVariable(n) => SpecTree::Variable(n@),
            ExpressionAstTree::ItemPrimitive(n, c) => SpecTree::Primitive(n@, trees_view(c@)),
        }
    }
}

pub open spec fn trees_view(v: Seq<ExpressionAstTree>) -> Seq<SpecTree>
    decreases v, 0int,
{
    Seq::new(
        v.len(),
        |i: int|
            if 0 <= i < v.len() {
                v[i].spec_view()
            } else {
                SpecTree::Variable(Seq::empty())
            },
    )
}

/// A compiled expression: its tree and the variables it reads.
#[derive(Debug)]
pub struct ExpressionAST {
    pub variables: Vec<String>,
    pub ast: ExpressionAstTree,
}

/// A compiled expression (the name the engine also gives it).
pub type Expression = ExpressionAST;

/// The text of a symbol.
pub open spec fn symbol_text(s: SpecSymbol) -> Seq<char> {
    match s {
        SpecSymbol::BlockStart => seq!['('],
        SpecSymbol::BlockEnd => seq![')'],
        SpecSymbol::BlockCut => seq![','],
        SpecSymbol::Custom(t) => t,
    }
}

impl SymbolType {
    /// The text of the symbol.
    pub fn to_string(&self) -> (r: String)
        ensures
            r@ == symbol_text(self.spec_view()),
    {
        match self {
            SymbolType::BlockStart => {
                proof {
                    reveal_strlit("(");
                }
                String::from_str("(")
            },
            SymbolType::BlockEnd => {
                proof {
                    reveal_strlit(")");
                }
                String::from_str(")")
            },
            SymbolType::BlockCut => {
                proof {
                    reveal_strlit(",");
                }
                String::from_str(",")
            },
            SymbolType::Custom(t) => t.clone(),
        }
    }

    /// A copy of the symbol.
    pub fn deep_clone(&self) -> (r: SymbolType)
        ensures
            r.spec_view() == self.spec_view(),
    {
        match self {
            SymbolType::BlockStart => SymbolType::BlockStart,
            SymbolType::BlockEnd => SymbolType::BlockEnd,
            SymbolType::BlockCut => SymbolType::BlockCut,
            SymbolType::Custom(t) => SymbolType::Custom(t.clone()),
        }
    }
}

impl Clone for SymbolType {
    fn clone(&self) -> (r: Self)
        ensures
            r.spec_view() == self.spec_view(),
    {
        self.deep_clone()
    }
}

impl PartialEq for SymbolType {
    fn eq(&self, other: &Self) -> (r: bool) {
        let a = self.to_string();
        let b = other.to_string();
        a == b
    }
}

impl vstd::std_specs::cmp::PartialEqSpecImpl for SymbolType {
    open spec fn obeys_eq_spec() -> bool {
        true
    }

    open spec fn eq_spec(&self, other: &Self) -> bool {
        symbol_text(self.spec_view()) == symbol_text(other.spec_view())
    }
}

/// Equality of intermediate forms: symbols by their text, values by [`value_eq`], and
/// the rest part by part.
pub open spec fn ir_eq(a: SpecIR, b: SpecIR) -> bool
    decreases a, 0int,
{
    match a {
        SpecIR::Symbol(x) => b matches SpecIR::Symbol(y) && symbol_text(x) == symbol_text(y),
        SpecIR::Value(x) => b matches SpecIR::Value(y) && value_eq(x, y),
        SpecIR::Variable(x) => b matches SpecIR::Variable(y) && x == y,
        SpecIR::Primitive(n, xs) => b matches SpecIR::Primitive(m, ys) && n == m && xs.len() == ys.len()
            && irs_eq(xs, ys, xs.len() as int),
        SpecIR::Group(xs) => b matches SpecIR::Group(ys) && xs.len() == ys.len() && irs_eq(
            xs,
            ys,
            xs.len() as int,
        ),
    }
}

/// The first `n` elements of `xs` and `ys` are pairwise equal.
pub open spec fn irs_eq(xs: Seq<SpecIR>, ys: Seq<SpecIR>, n: int) -> bool
    decreases xs, n,
{
    if n <= 0 || n > xs.len() || n > ys.len() {
        n <= 0
    } else {
        irs_eq(xs, ys, n - 1) && ir_eq(xs[n - 1], ys[n - 1])
    }
}

proof fn lemma_irs_eq_prefix(xs: Seq<SpecIR>, ys: Seq<SpecIR>, m: int, n: int)
    requires
        0 <= m <= n,
        irs_eq(xs, ys, n),
    ensures
        irs_eq(xs, ys, m),
    decreases n - m,
{
    if m < n {
        lemma_irs_eq_prefix(xs, ys, m, n - 1);
    }
}

/// Whether two lists of strings are equal.
pub fn strings_eq(a: &Vec<String>, b: &Vec<String>) -> (r: bool)
    ensures
        r == (strings_view(a@) == strings_view(b@)),
{
    if a.len() != b.len() {
        assert(strings_view(a@).len() != strings_view(b@).len());
        return false;
    }
    let mut i: usize = 0;
    while i < a.len()
        invariant
            a@.len() == b@.len(),
            i <= a@.len(),
            forall|k: int| 0 <= k < i ==> a@[k]@ == b@[k]@,
        decreases a@.len() - i,
    {
        if a[i] != b[i] {
            assert(strings_view(a@)[i as int] != strings_view(b@)[i as int]);
            return false;
        }
        i = i + 1;
    }
    assert(strings_view(a@) =~= strings_view(b@));
    true
}

/// Whether two lists of intermediate forms are equal, by [`irs_eq`].
fn irs_eq_exec(xs: &Vec<ExpressionIR>, ys: &Vec<ExpressionIR>, Ghost(outer): Ghost<ExpressionIR>) -> (r: bool)
    requires
        forall|k: int| 0 <= k < xs@.len() ==> decreases_to!(outer => #[trigger] xs@[k]),
    ensures
        r == (xs@.len() == ys@.len() && irs_eq(irs_view(xs@), irs_view(ys@), xs@.len() as int)),
    decreases outer, 0int,
{
    let ghost xv = irs_view(xs@);
    let ghost yv = irs_view(ys@);
    if xs.len() != ys.len() {
        return false;
    }
    let mut i: usize = 0;
    while i < xs.len()
        invariant
            forall|k: int| 0 <= k < xs@.len() ==> decreases_to!(outer => #[trigger] xs@[k]),
            xs@.len() == ys@.len(),
            xv == irs_view(xs@),
            yv == irs_view(ys@),
            i <= xs@.len(),
            irs_eq(xv, yv, i as int),
        decreases xs@.len() - i,
    {
        proof {
            assert(decreases_to!(outer => xs@[i as int]));
        }
        if !ir_eq_exec(&xs[i], &ys[i]) {
            proof {
                if irs_eq(xv, yv, xv.len() as int) {
                    lemma_irs_eq_prefix(xv, yv, i + 1, xv.len() as int);
                }
            }
            return false;
        }
        i = i + 1;
    }
    true
}

/// Whether two intermediate forms are equal, by [`ir_eq`].
pub fn ir_eq_exec(a: &ExpressionIR, b: &ExpressionIR) -> (r: bool)
    ensures
        r == ir_eq(a.spec_view(), b.spec_view()),
    decreases a, 1int,
{
    match (a, b) {
        (ExpressionIR::ItemSymbol(x), ExpressionIR::ItemSymbol(y)) => *x == *y,
        (ExpressionIR::ItemValue(x), ExpressionIR::ItemValue(y)) => value_eq_exec(x, y),
        (ExpressionIR::ItemVariable(x), ExpressionIR::ItemVariable(y)) => strings_eq(x, y),
        (ExpressionIR::ItemPrimitive(n, xs), ExpressionIR::ItemPrimitive(m, ys)) => {
            proof {
                assert forall|k: int| 0 <= k < xs@.len() implies decreases_to!(*a => #[trigger] xs@[k]) by {
                    assert(decreases_to!(*a => a->ItemPrimitive_1));
                    assert(decreases_to!(a->ItemPrimitive_1 => a->ItemPrimitive_1[k]));
                }
            }
            *n == *m && irs_eq_exec(xs, ys, Ghost(*a))
        },
        (ExpressionIR::ItemGroup(xs), ExpressionIR::ItemGroup(ys)) => {
            proof {
                assert forall|k: int| 0 <= k < xs@.len() implies decreases_to!(*a => #[trigger] xs@[k]) by {
                    assert(decreases_to!(*a => a->ItemGroup_0));
                    assert(decreases_to!(a->ItemGroup_0 => a->ItemGroup_0[k]));
                }
            }
            irs_eq_exec(xs, ys, Ghost(*a))
        },
        _ => false,
    }
}

impl PartialEq for ExpressionIR {
    fn eq(&self, other: &Self) -> (r: bool) {
        ir_eq_exec(self, other)
    }
}

impl vstd::std_specs::cmp::PartialEqSpecImpl for ExpressionIR {
    open spec fn obeys_eq_spec() -> bool {
        true
    }

    open spec fn eq_spec(&self, other: &Self) -> bool {
        ir_eq(self.spec_view(), other.spec_view())
    }
}

/// A copy of a list of strings.
pub fn clone_strings(v: &Vec<String>) -> (r: Vec<String>)
    ensures
        strings_view(r@) == strings_view(v@),
{
    let mut out: Vec<String> = Vec::new();
    let mut i: usize = 0;
    while i < v.len()
        invariant
            i <= v@.len(),
            out@.len() == i,
            forall|k: int| 0 <= k < i ==> #[trigger] out@[k]@ == v@[k]@,
        decreases v@.len() - i,
    {
        out.push(v[i].clone());
        i = i + 1;
    }
    assert(strings_view(out@) =~= strings_view(v@));
    out
}

impl ExpressionIR {
    /// A copy of the intermediate form.
    pub fn deep_clone(&self) -> (r: ExpressionIR)
        ensures
            r.spec_view() == self.spec_view(),
        decreases self, 1int,
    {
        match self {
            ExpressionIR::ItemSymbol(s) => ExpressionIR::ItemSymbol(s.deep_clone()),
            ExpressionIR::ItemValue(v) => ExpressionIR::ItemValue(v.deep_clone()),
            ExpressionIR::ItemVariable(v) => ExpressionIR::ItemVariable(clone_strings(v)),
            ExpressionIR::ItemPrimitive(n, c) => {
                proof {
                    assert forall|k: int| 0 <= k < c@.len() implies decreases_to!(*self => #[trigger] c@[k]) by {
                        assert(decreases_to!(*self => self->ItemPrimitive_1));
                        assert(decreases_to!(self->ItemPrimitive_1 => self->ItemPrimitive_1[k]));
                    }
                }
                ExpressionIR::ItemPrimitive(n.clone(), clone_irs(c, Ghost(*self)))
            },
            ExpressionIR::ItemGroup(c) => {
                proof {
                    assert forall|k: int| 0 <= k < c@.len() implies decreases_to!(*self => #[trigger] c@[k]) by {
                        assert(decreases_to!(*self => self->ItemGroup_0));
                        assert(decreases_to!(self->ItemGroup_0 => self->ItemGroup_0[k]));
                    }
                }
                ExpressionIR::ItemGroup(clone_irs(c, Ghost(*self)))
            },
        }
    }
}

/// A copy of a list of intermediate forms.
fn clone_irs(v: &Vec<ExpressionIR>, Ghost(outer): Ghost<ExpressionIR>) -> (r: Vec<ExpressionIR>)
    requires
        forall|k: int| 0 <= k < v@.len() ==> decreases_to!(outer => #[trigger] v@[k]),
    ensures
        irs_view(r@) == irs_view(v@),
    decreases outer, 0int,
{
    let mut out: Vec<ExpressionIR> = Vec::new();
    let mut i: usize = 0;
    while i < v.len()
        invariant
            forall|k: int| 0 <= k < v@.len() ==> decreases_to!(outer => #[trigger] v@[k]),
            i <= v@.len(),
            out@.len() == i,
            forall|k: int| 0 <= k < i ==> #[trigger] out@[k].spec_view() == v@[k].spec_view(),
        decreases v@.len() - i,
    {
        proof {
            assert(decreases_to!(outer => v@[i as int]));
        }
        out.push(v[i].deep_clone());
        i = i + 1;
    }
    assert forall|k: int| 0 <= k < v@.len() implies #[trigger] irs_view(out@)[k] == irs_view(v@)[k] by {
        assert(out@[k].spec_view() == v@[k].spec_view());
    }
    assert(irs_view(out@) =~= irs_view(v@));
    out
}

impl Clone for ExpressionIR {
    fn clone(&self) -> (r: Self)
        ensures
            r.spec_view() == self.spec_view(),
    {
        self.deep_clone()
    }
}

} // verus!
