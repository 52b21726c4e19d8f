use vstd::prelude::*;
use vstd::string::*;

use crate::expression::specs::{irs_view, ExpressionIR, SpecIR};

verus! {

/// How an operator and its two operands become a primitive.
#[derive(Debug)]
pub enum SymbolCovert {
    /// `a op b` becomes the primitive `name(a, b)`.
    Binary(String),
    /// `a is b` becomes `eq(type(a), b)`.
    TypeIs,
    /// `a != b` becomes `not(eq(a, b))`.
    NotEqual,
}

#[verifier::ext_equal]
pub enum SpecCovert {
    Binary(Seq<char>),
    TypeIs,
    NotEqual,
}

impl SymbolCovert {
    pub open spec fn spec_view(&self) -> SpecCovert {
        match self {
            SymbolCovert::Binary(n) => SpecCovert::Binary(n@),
            SymbolCovert::TypeIs => SpecCovert::TypeIs,
            SymbolCovert::NotEqual => SpecCovert::NotEqual,
        }
    }
}

/// The primitive that an operator makes of its operands.
pub open spec fn spec_covert(c: SpecCovert, left: SpecIR, right: SpecIR) -> SpecIR {
    match c {
        SpecCovert::Binary(n) => SpecIR::Primitive(n, seq![left, right]),
        SpecCovert::TypeIs => SpecIR::Primitive(
            seq!['e', 'q'],
            seq![SpecIR::Primitive(seq!['t', 'y', 'p', 'e'], seq![left]), right],
        ),
        SpecCovert::NotEqual => SpecIR::Primitive(
            seq!['n', 'o', 't'],
            seq![SpecIR::Primitive(seq!['e', 'q'], seq![left, right])],
        ),
    }
}

impl SymbolCovert {
    /// The primitive made of `left` and `right`.
    pub fn apply(&self, left: ExpressionIR, right: ExpressionIR) -> (r: ExpressionIR)
        ensures
            r.spec_view() == spec_covert(self.spec_view(), left.spec_view(), right.spec_view()),
    {
        proof {
            reveal_strlit("eq");
            reveal_strlit("type");
            reveal_strlit("not");
        }
        let ghost lv = left.spec_view();
        let ghost rv = right.spec_view();
        match self {
            SymbolCovert::Binary(n) => {
                let c = vec![left, right];
                assert(irs_view(c@) =~= seq![lv, rv]);
                let name = n.clone();
                let r = ExpressionIR::ItemPrimitive(name, c);
                assert(self.spec_view() == SpecCovert::Binary(n@));
                assert(r.spec_view() =~~= spec_covert(self.spec_view(), lv, rv));
                assert(lv == left.spec_view());
                assert(rv == right.spec_view());
                assert(r.spec_view() =~~= spec_covert(self.spec_view(), left.spec_view(), right.spec_view()));
                r
            },
            SymbolCovert::TypeIs => {
                let d = vec![left];
                assert(irs_view(d@) =~= seq![lv]);
                let ty = String::from_str("type");
                assert(ty@ =~= seq!['t', 'y', 'p', 'e']);
                let inner = ExpressionIR::ItemPrimitive(ty, d);
                let ghost iv = inner.spec_view();
                assert(iv =~~= SpecIR::Primitive(seq!['t', 'y', 'p', 'e'], seq![lv]));
                let c = vec![inner, right];
                assert(irs_view(c@) =~= seq![iv, rv]);
                let r = ExpressionIR::ItemPrimitive(String::from_str("eq"), c);
                assert(r.spec_view() =~~= spec_covert(self.spec_view(), left.spec_view(), right.spec_view()));
                r
            },
            SymbolCovert::NotEqual => {
                let d = vec![left, right];
                assert(irs_view(d@) =~= seq![lv, rv]);
                let eq = String::from_str("eq");
                assert(eq@ =~= seq!['e', 'q']);
                let inner = ExpressionIR::ItemPrimitive(eq, d);
                let ghost iv = inner.spec_view();
                assert(iv =~~= SpecIR::Primitive(seq!['e', 'q'], seq![lv, rv]));
                let c = vec![inner];
                assert(irs_view(c@) =~= seq![iv]);
                let not = String::from_str("not");
                assert(not@ =~= seq!['n', 'o', 't']);
                let r = ExpressionIR::ItemPrimitive(not, c);
                assert(r.spec_view() =~~= spec_covert(self.spec_view(), left.spec_view(), right.spec_view()));
                r
            },
        }
    }
}

/// An operator and the primitive it becomes.
#[derive(Debug)]
pub struct ExpressionSymbolCovert {
    /// The text of the operator.
    pub symbol: String,
    /// How its operands become a primitive.
    pub covert: SymbolCovert,
}

/// The primitives that the engine computes itself.
#[derive(Debug, Clone, Copy, PartialEq, Eq, Structural)]
pub enum NativePrimitive {
    Get,
    GetOr,
    Add,
    Sub,
    Multi,
    Div,
    Mod,
}

/// How a primitive is rendered: computed by the engine from the values of its arguments.
#[derive(Debug)]
pub enum PrimitiveRenderType {
    Native(NativePrimitive),
}

/// The operators of expressions and the primitives the engine computes.
#[derive(Debug)]
pub struct ExpressionManager {
    /// The operators, in the order in which they are bound.
    pub symbols: Vec<ExpressionSymbolCovert>,
    /// The primitives computed by the engine, by name.
    pub primitive_renders: Vec<(String, PrimitiveRenderType)>,
}

/// The model of an [`ExpressionManager`].
pub struct SpecManager {
    pub symbols: Seq<(Seq<char>, SpecCovert)>,
    pub natives: Seq<(Seq<char>, NativePrimitive)>,
}

impl ExpressionManager {
    pub open spec fn spec_view(&self) -> SpecManager {
        SpecManager {
            symbols: Seq::new(self.symbols@.len(), |i: int| (self.symbols@[i].symbol@, self.symbols@[i].covert.spec_view())),
            natives: Seq::new(
                self.primitive_renders@.len(),
                |i: int|
                    match self.primitive_renders@[i].1 {
                        PrimitiveRenderType::Native(p) => (self.primitive_renders@[i].0@, p),
                    },
            ),
        }
    }

    /// Every operator has a text.
    pub open spec fn wf(&self) -> bool {
        forall|i: int| 0 <= i < self.symbols@.len() ==> (#[trigger] self.symbols@[i]).symbol@.len() > 0
    }
}

/// The primitive computed under `name`: the first one registered under it.
pub open spec fn native_of(natives: Seq<(Seq<char>, NativePrimitive)>, name: Seq<char>) -> Option<NativePrimitive>
    decreases natives.len(),
{
    if natives.len() == 0 {
        None
    } else if natives[0].0 == name {
        Some(natives[0].1)
    } else {
        native_of(natives.drop_first(), name)
    }
}

impl ExpressionManager {
    /// The primitive computed under `name`.
    pub fn native(&self, name: &String) -> (r: Option<NativePrimitive>)
        ensures
            r == native_of(self.spec_view().natives, name@),
    {
        let ghost nv = self.spec_view().natives;
        let mut i: usize = 0;
        assert(nv.skip(0) =~= nv);
        while i < self.primitive_renders.len()
            invariant
                i <= self.primitive_renders@.len(),
                nv == self.spec_view().natives,
                native_of(nv, name@) == native_of(nv.skip(i as int), name@),
            decreases self.primitive_renders@.len() - i,
        {
            let ghost rest = nv.skip(i as int);
            assert(rest[0] == nv[i as int]);
            assert(rest.drop_first() =~= nv.skip(i + 1));
            if self.primitive_renders[i].0 == *name {
                match self.primitive_renders[i].1 {
                    PrimitiveRenderType::Native(p) => {
                        return Some(p);
                    },
                }
            }
            i = i + 1;
        }
        None
    }
}

/// The operators of expressions, in the order in which they are bound, and the primitives
/// they become (the names of the primitives that the engine computes are listed beside).
pub open spec fn default_symbol_table() -> Seq<(Seq<char>, SpecCovert)> {
    seq![
        (seq!['?', ':'], SpecCovert::Binary(seq!['g', 'e', 't', '_', 'o', 'r'])),
        (seq!['*'], SpecCovert::Binary(seq!['m', 'u', 'l', 't', 'i'])),
        (seq!['/'], SpecCovert::Binary(seq!['d', 'i', 'v'])),
        (seq!['%'], SpecCovert::Binary(seq!['m', 'o', 'd'])),
        (seq!['+'], SpecCovert::Binary(seq!['a', 'd', 'd'])),
        (seq!['-'], SpecCovert::Binary(seq!['s', 'u', 'b'])),
        (seq![' ', 'i', 's', ' '], SpecCovert::TypeIs),
        (seq![' ', 'i', 'n', ' '], SpecCovert::Binary(seq!['i', 'n'])),
        (seq!['=', '='], SpecCovert::Binary(seq!['e', 'q'])),
        (seq!['!', '='], SpecCovert::NotEqual),
        (seq!['>', '='], SpecCovert::Binary(seq!['g', 'e'])),
        (seq!['<', '='], SpecCovert::Binary(seq!['l', 'e'])),
        (seq!['>'], SpecCovert::Binary(seq!['r', '_', 'a', 'n', 'g', 'l', 'e'])),
        (seq!['<'], SpecCovert::Binary(seq!['l', '_', 'a', 'n', 'g', 'l', 'e'])),
        (seq!['&', '&'], SpecCovert::Binary(seq!['a', 'n', 'd'])),
        (seq!['|', '|'], SpecCovert::Binary(seq!['o', 'r'])),
    ]
}

/// The primitives that the operators become and that the engine computes.
pub open spec fn default_operator_natives() -> Seq<(Seq<char>, NativePrimitive)> {
    seq![
        (seq!['g', 'e', 't', '_', 'o', 'r'], NativePrimitive::GetOr),
        (seq!['m', 'u', 'l', 't', 'i'], NativePrimitive::Multi),
        (seq!['d', 'i', 'v'], NativePrimitive::Div),
        (seq!['m', 'o', 'd'], NativePrimitive::Mod),
        (seq!['a', 'd', 'd'], NativePrimitive::Add),
        (seq!['s', 'u', 'b'], NativePrimitive::Sub),
    ]
}

fn binary(symbol: &str, name: &str) -> (r: ExpressionSymbolCovert)
    ensures
        r.symbol@ == symbol@,
        r.covert.spec_view() == SpecCovert::Binary(name@),
{
    ExpressionSymbolCovert { symbol: String::from_str(symbol), covert: SymbolCovert::Binary(String::from_str(name)) }
}

fn native(name: &str, p: NativePrimitive) -> (r: (String, PrimitiveRenderType))
    ensures
        r.0@ == name@,
        r.1 == PrimitiveRenderType::Native(p),
{
    (String::from_str(name), PrimitiveRenderType::Native(p))
}

/// The operators of expressions, in the order in which they are bound, and the primitives
/// among those they become that the engine computes.
pub fn default_expressions_symbol() -> (r: (Vec<ExpressionSymbolCovert>, Vec<(String, PrimitiveRenderType)>))
    ensures
        Seq::new(r.0@.len(), |i: int| (r.0@[i].symbol@, r.0@[i].covert.spec_view())) == default_symbol_table(),
        Seq::new(
            r.1@.len(),
            |i: int|
                match r.1@[i].1 {
                    PrimitiveRenderType::Native(p) => (r.1@[i].0@, p),
                },
        ) == default_operator_natives(),
{
    proof {
        reveal_strlit("?:");
        reveal_strlit("get_or");
        reveal_strlit("*");
        reveal_strlit("multi");
        reveal_strlit("/");
        reveal_strlit("div");
        reveal_strlit("%");
        reveal_strlit("mod");
        reveal_strlit("+");
        reveal_strlit("add");
        reveal_strlit("-");
        reveal_strlit("sub");
        reveal_strlit(" is ");
        reveal_strlit(" in ");
        reveal_strlit("in");
        reveal_strlit("==");
        reveal_strlit("eq");
        reveal_strlit("!=");
        reveal_strlit(">=");
        reveal_strlit("ge");
        reveal_strlit("<=");
        reveal_strlit("le");
        reveal_strlit(">");
        reveal_strlit("r_angle");
        reveal_strlit("<");
        reveal_strlit("l_angle");
        reveal_strlit("&&");
        reveal_strlit("and");
        reveal_strlit("||");
        reveal_strlit("or");
    }
    let mut symbols: Vec<ExpressionSymbolCovert> = Vec::new();
    let mut natives: Vec<(String, PrimitiveRenderType)> = Vec::new();
    symbols.push(binary("?:", "get_or"));
    natives.push(native("get_or", NativePrimitive::GetOr));
    symbols.push(binary("*", "multi"));
    natives.push(native("multi", NativePrimitive::Multi));
    symbols.push(binary("/", "div"));
    natives.push(native("div", NativePrimitive::Div));
    symbols.push(binary("%", "mod"));
    natives.push(native("mod", NativePrimitive::Mod));
    symbols.push(binary("+", "add"));
    natives.push(native("add", NativePrimitive::Add));
    symbols.push(binary("-", "sub"));
    natives.push(native("sub", NativePrimitive::Sub));
    symbols.push(ExpressionSymbolCovert { symbol: String::from_str(" is "), covert: SymbolCovert::TypeIs });
    symbols.push(binary(" in ", "in"));
    symbols.push(binary("==", "eq"));
    symbols.push(ExpressionSymbolCovert { symbol: String::from_str("!="), covert: SymbolCovert::NotEqual });
    symbols.push(binary(">=", "ge"));
    symbols.push(binary("<=", "le"));
    symbols.push(binary(">", "r_angle"));
    symbols.push(binary("<", "l_angle"));
    symbols.push(binary("&&", "and"));
    symbols.push(binary("||", "or"));
    let ghost sv = Seq::new(symbols@.len(), |i: int| (symbols@[i].symbol@, symbols@[i].covert.spec_view()));
    assert(symbols@.len() == 16);
    assert(symbols@[0].symbol@ =~= seq!['?', ':']);
    assert(symbols@[0].covert.spec_view() =~~= SpecCovert::Binary(seq!['g', 'e', 't', '_', 'o', 'r']));
    assert(sv[0] =~~= default_symbol_table()[0]);
    assert(sv[6] == default_symbol_table()[6]);
    assert(sv[9] == default_symbol_table()[9]);
    assert(sv[15] == default_symbol_table()[15]);
    assert(sv =~~= default_symbol_table());
    let ghost nv = Seq::new(
        natives@.len(),
        |i: int|
            match natives@[i].1 {
                PrimitiveRenderType::Native(p) => (natives@[i].0@, p),
            },
    );
    assert(nv =~= default_operator_natives());
    (symbols, natives)
}

/// The primitives that the engine computes besides those of the operators.
pub fn default_primitive_renders() -> (r: Vec<(String, PrimitiveRenderType)>)
    ensures
        r@.len() == 1,
        r@[0].0@ == seq!['g', 'e', 't'],
        r@[0].1 == PrimitiveRenderType::Native(NativePrimitive::Get),
{
    proof {
        reveal_strlit("get");
    }
    vec![native("get", NativePrimitive::Get)]
}

/// No two primitives are registered under the same name.
pub open spec fn natives_distinct(n: Seq<(Seq<char>, NativePrimitive)>) -> bool {
    forall|i: int, j: int| 0 <= i < j < n.len() ==> #[trigger] n[i].0 != #[trigger] n[j].0
}

proof fn lemma_default_natives_distinct()
    ensures
        natives_distinct(default_operator_natives().push((seq!['g', 'e', 't'], NativePrimitive::Get))),
{
    let n = default_operator_natives().push((seq!['g', 'e', 't'], NativePrimitive::Get));
    assert(n.len() == 7);
    assert(n[0].0.len() == 6 && n[0].0[0] == 'g');
    assert(n[1].0.len() == 5 && n[1].0[0] == 'm');
    assert(n[2].0.len() == 3 && n[2].0[0] == 'd');
    assert(n[3].0.len() == 3 && n[3].0[0] == 'm');
    assert(n[4].0.len() == 3 && n[4].0[0] == 'a');
    assert(n[5].0.len() == 3 && n[5].0[0] == 's');
    assert(n[6].0.len() == 3 && n[6].0[0] == 'g');
    assert forall|i: int, j: int| 0 <= i < j < n.len() implies #[trigger] n[i].0 != #[trigger] n[j].0 by {
        assert(i == 0 || i == 1 || i == 2 || i == 3 || i == 4 || i == 5);
        assert(j == 1 || j == 2 || j == 3 || j == 4 || j == 5 || j == 6);
        if n[i].0 == n[j].0 {
            assert(n[i].0.len() == n[j].0.len());
            assert(n[i].0[0] == n[j].0[0]);
        }
    }
}

impl Default for ExpressionManager {
    /// The default operators and primitives (no two primitives share a name).
    fn default() -> (r: Self)
        ensures
            r.wf(),
            natives_distinct(r.spec_view().natives),
            r.spec_view().symbols == default_symbol_table(),
            r.spec_view().natives == default_operator_natives().push((seq!['g', 'e', 't'], NativePrimitive::Get)),
    {
        let (symbols, mut natives) = default_expressions_symbol();
        let mut extra = default_primitive_renders();
        natives.append(&mut extra);
        let r = ExpressionManager { symbols, primitive_renders: natives };
        assert(r.spec_view().symbols =~= default_symbol_table());
        assert(r.spec_view().natives =~= default_operator_natives().push((seq!['g', 'e', 't'], NativePrimitive::Get)));
        proof {
            lemma_default_natives_distinct();
        }
        assert forall|i: int| 0 <= i < r.symbols@.len() implies (#[trigger] r.symbols@[i]).symbol@.len() > 0 by {
            assert(r.spec_view().symbols[i].0 == r.symbols@[i].symbol@);
        }
        r
    }
}

} // verus!

verus! {

/// How tightly an operator binds, from the tightest: `?:`; then `*`, `/`, `%`; then `+`,
/// `-`; then the tests ` is `, ` in `, `==`, `!=`, `>=`, `<=`, `>`, `<`; then `&&`; then
/// `||`.
pub open spec fn operator_rank(t: Seq<char>) -> int {
    if t == seq!['?', ':'] {
        0
    } else if t == seq!['*'] || t == seq!['/'] || t == seq!['%'] {
        1
    } else if t == seq!['+'] || t == seq!['-'] {
        2
    } else if t == seq![' ', 'i', 's', ' '] || t == seq![' ', 'i', 'n', ' '] || t == seq!['=', '='] || t == seq!['!', '=']
        || t == seq!['>', '='] || t == seq!['<', '='] || t == seq!['>'] || t == seq!['<'] {
        3
    } else if t == seq!['&', '&'] {
        4
    } else if t == seq!['|', '|'] {
        5
    } else {
        6
    }
}

/// The default operators are bound from the tightest to the loosest: an operator that
/// binds more tightly comes earlier in the table (operators are linked in table order).
pub proof fn lemma_default_precedence()
    ensures
        forall|i: int, j: int|
            0 <= i < j < default_symbol_table().len() ==> operator_rank(#[trigger] default_symbol_table()[i].0)
                <= operator_rank(#[trigger] default_symbol_table()[j].0),
        forall|i: int| 0 <= i < default_symbol_table().len() ==> operator_rank(#[trigger] default_symbol_table()[i].0) < 6,
{
    let t = default_symbol_table();
    let r = Seq::new(16, |i: int| if i == 0 { 0int } else if i <= 3 { 1 } else if i <= 5 { 2 } else if i <= 13 { 3 } else if i == 14 { 4 } else { 5 });
    assert(operator_rank(t[0].0) == 0);
    assert(operator_rank(t[1].0) == 1);
    assert(operator_rank(t[2].0) == 1);
    assert(operator_rank(t[3].0) == 1);
    assert(operator_rank(t[4].0) == 2) by { assert(t[4].0 != seq!['*'] && t[4].0 != seq!['/'] && t[4].0 != seq!['%']) by { assert(t[4].0[0] == '+'); } assert(t[4].0 != seq!['?', ':']) by { assert(t[4].0.len() == 1); } }
    assert(operator_rank(t[5].0) == 2) by { assert(t[5].0 != seq!['*'] && t[5].0 != seq!['/'] && t[5].0 != seq!['%']) by { assert(t[5].0[0] == '-'); } assert(t[5].0 != seq!['?', ':']) by { assert(t[5].0.len() == 1); } }
    assert forall|k: int| 6 <= k <= 13 implies operator_rank(#[trigger] t[k].0) == 3 by {
        let w = t[k].0;
        assert(w.len() != 1 || w[0] == '>' || w[0] == '<');
        assert(w != seq!['?', ':']) by { if w.len() == 2 { assert(w[0] != '?'); } }
        assert(w != seq!['*'] && w != seq!['/'] && w != seq!['%'] && w != seq!['+'] && w != seq!['-']) by {
            if w.len() == 1 { assert(w[0] == '>' || w[0] == '<'); }
        }
    }
    assert(operator_rank(t[14].0) == 4) by {
        let w = t[14].0;
        assert(w[0] == '&' && w.len() == 2);
        assert(w != seq!['?', ':'] && w != seq![' ', 'i', 's', ' '] && w != seq![' ', 'i', 'n', ' '] && w != seq!['=', '=']
            && w != seq!['!', '='] && w != seq!['>', '='] && w != seq!['<', '=']) by {
            assert(seq!['?', ':'][0] != '&' && seq!['=', '='][0] != '&' && seq!['!', '='][0] != '&' && seq!['>', '='][0] != '&' && seq!['<', '='][0] != '&');
        }
    }
    assert(operator_rank(t[15].0) == 5) by {
        let w = t[15].0;
        assert(w[0] == '|' && w.len() == 2);
        assert(w != seq!['?', ':'] && w != seq![' ', 'i', 's', ' '] && w != seq![' ', 'i', 'n', ' '] && w != seq!['=', '=']
            && w != seq!['!', '='] && w != seq!['>', '='] && w != seq!['<', '='] && w != seq!['&', '&']) by {
            assert(seq!['?', ':'][0] != '|' && seq!['=', '='][0] != '|' && seq!['!', '='][0] != '|' && seq!['>', '='][0] != '|' && seq!['<', '='][0] != '|' && seq!['&', '&'][0] != '|');
        }
    }
    assert forall|i: int| 0 <= i < 16 implies operator_rank(#[trigger] t[i].0) == r[i] by {
        if i <= 5 || i >= 14 {
            assert(i == 0 || i == 1 || i == 2 || i == 3 || i == 4 || i == 5 || i == 14 || i == 15);
        }
    }
}

} // verus!
