use vstd::prelude::*;
use vstd::string::*;

use crate::error::{TemplateError, TmplResult};
use crate::expression::manager::{
    spec_covert, ExpressionManager, ExpressionSymbolCovert, PrimitiveRenderType, SpecCovert,
};
use crate::expression::output::ir_text;
use crate::expression::specs::{irs_view, symbol_text, ExpressionIR, SpecIR, SymbolType};
use crate::utils::debug::{debug_str, debug_text, pretty_debug_parts, pretty_parts_text};

verus! {

/// The first position of a symbol with text `sym` in `s`, from position `i` on.
pub open spec fn first_symbol(s: Seq<SpecIR>, sym: Seq<char>, i: int) -> Option<int>
    decreases s.len() - i,
{
    if i < 0 || i >= s.len() {
        None
    } else if s[i] matches SpecIR::Symbol(x) && symbol_text(x) == sym {
        Some(i)
    } else {
        first_symbol(s, sym, i + 1)
    }
}

pub proof fn lemma_first_symbol_range(s: Seq<SpecIR>, sym: Seq<char>, i: int)
    ensures
        first_symbol(s, sym, i) matches Some(k) ==> i <= k < s.len() && 0 <= k,
    decreases s.len() - i,
{
    if 0 <= i < s.len() {
        lemma_first_symbol_range(s, sym, i + 1);
    }
}

/// The message of a symbol `sym` at a wrong position: the `Debug` text of the symbol's
/// text as a part.
pub open spec fn misplaced_text(sym: Seq<char>) -> Seq<char> {
    "符号'"@ + debug_text(" `"@ + sym + "` "@) + "'位置错误！"@
}

/// The message of a symbol `x` standing as an operand: its text, and the pretty `Debug`
/// text of the parts left once the operator and its two operands were taken out.
pub open spec fn operand_text(x: SpecIR, rest: Seq<SpecIR>) -> Seq<char> {
    "符号 "@ + ir_text(x) + " 位置错误！ ,\n"@ + pretty_parts_text(rest)
}

/// Replaces, from the left, each symbol with text `sym` and its two operands by the
/// primitive `c` makes of them; it is an error (`Err`, with its message) when a symbol
/// stands at an even position or has no right operand ([`misplaced_text`]), or has a
/// symbol as an operand ([`operand_text`]).
pub open spec fn link_reduce(c: SpecCovert, sym: Seq<char>, s: Seq<SpecIR>) -> Result<Seq<SpecIR>, Seq<char>>
    decreases s.len(),
{
    match first_symbol(s, sym, 0) {
        None => Ok(s),
        Some(k) => if k % 2 != 1 || k + 1 >= s.len() || k < 1 {
            Err(misplaced_text(sym))
        } else {
            let l = s[k - 1];
            let r = s[k + 1];
            if l is Symbol {
                Err(operand_text(l, s.take(k - 1) + seq![s[k]] + s.skip(k + 2)))
            } else if r is Symbol {
                Err(operand_text(r, s.take(k - 1) + seq![s[k]] + s.skip(k + 2)))
            } else {
                proof {
                    lemma_first_symbol_range(s, sym, 0);
                }
                link_reduce(c, sym, s.take(k - 1) + seq![spec_covert(c, l, r)] + s.skip(k + 2))
            }
        },
    }
}

/// A part with the symbol `sym` linked inside it.
pub open spec fn link_inside(c: SpecCovert, sym: Seq<char>, x: SpecIR) -> Result<SpecIR, Seq<char>>
    decreases x, 2int,
{
    match x {
        SpecIR::Primitive(n, ch) => match link_list(c, sym, ch) {
            Ok(v) => Ok(SpecIR::Primitive(n, v)),
            Err(e) => Err(e),
        },
        SpecIR::Group(ch) => match link_list(c, sym, ch) {
            Ok(v) => Ok(SpecIR::Group(v)),
            Err(e) => Err(e),
        },
        _ => Ok(x),
    }
}

/// The first `n` parts of `s`, each with `sym` linked inside it; the first error stops.
pub open spec fn link_each(c: SpecCovert, sym: Seq<char>, s: Seq<SpecIR>, n: int) -> Result<Seq<SpecIR>, Seq<char>>
    decreases s, 0int, n,
{
    if n <= 0 || n > s.len() {
        Ok(seq![])
    } else {
        match link_each(c, sym, s, n - 1) {
            Err(e) => Err(e),
            Ok(v) => match link_inside(c, sym, s[n - 1]) {
                Err(e) => Err(e),
                Ok(y) => Ok(v.push(y)),
            },
        }
    }
}

/// The parts `s` with the symbol `sym` linked: inside each part first, then among them.
pub open spec fn link_list(c: SpecCovert, sym: Seq<char>, s: Seq<SpecIR>) -> Result<Seq<SpecIR>, Seq<char>>
    decreases s, 1int,
{
    match link_each(c, sym, s, s.len() as int) {
        Err(e) => Err(e),
        Ok(v) => link_reduce(c, sym, v),
    }
}

/// The parts `s` with the first `n` operators of `symbols` linked, in turn.
pub open spec fn link_all(symbols: Seq<(Seq<char>, SpecCovert)>, s: Seq<SpecIR>, n: int) -> Result<Seq<SpecIR>, Seq<char>>
    decreases n,
{
    if n <= 0 || n > symbols.len() {
        Ok(s)
    } else {
        match link_all(symbols, s, n - 1) {
            Err(e) => Err(e),
            Ok(v) => link_list(symbols[n - 1].1, symbols[n - 1].0, v),
        }
    }
}

/// `r` is the result `s`: the same parts, or a syntax error.
pub open spec fn link_result(r: TmplResult<()>, after: Seq<SpecIR>, s: Result<Seq<SpecIR>, Seq<char>>) -> bool {
    match s {
        Ok(v) => r is Ok && after == v,
        Err(m) => r matches Err(TemplateError::SyntaxError(e)) && e@ == m,
    }
}

/// The error of a misplaced symbol (see [`misplaced_text`]).
fn misplaced(symbol: &String) -> (r: TemplateError)
    ensures
        r matches TemplateError::SyntaxError(m) && m@ == misplaced_text(symbol@),
{
    let mut t = String::from_str(" `");
    t.append(symbol.as_str());
    t.append("` ");
    let d = debug_str(t.as_str());
    let mut msg = String::from_str("符号'");
    msg.append(d.as_str());
    msg.append("'位置错误！");
    TemplateError::SyntaxError(msg)
}

/// The error of a symbol standing as an operand (see [`operand_text`]).
fn operand_error(x: &ExpressionIR, rest: &Vec<ExpressionIR>) -> (r: TemplateError)
    ensures
        r matches TemplateError::SyntaxError(m) && m@ == operand_text(x.spec_view(), irs_view(rest@)),
{
    let t = x.to_string();
    let d = pretty_debug_parts(rest);
    let mut msg = String::from_str("符号 ");
    msg.append(t.as_str());
    msg.append(" 位置错误！ ,\n");
    msg.append(d.as_str());
    TemplateError::SyntaxError(msg)
}

fn link_elem(covert: &ExpressionSymbolCovert, x: ExpressionIR) -> (r: Result<ExpressionIR, TemplateError>)
    ensures
        match link_inside(covert.covert.spec_view(), covert.symbol@, x.spec_view()) {
            Ok(v) => r matches Ok(y) && y.spec_view() == v,
            Err(m) => r matches Err(TemplateError::SyntaxError(e)) && e@ == m,
        },
    decreases x,
{
    let ghost gx = x;
    match x {
        ExpressionIR::ItemPrimitive(n, ch) => {
            proof {
                assert(decreases_to!(gx => gx->ItemPrimitive_1));
            }
            match link_vec(covert, ch) {
                Ok(v) => Ok(ExpressionIR::ItemPrimitive(n, v)),
                Err(e) => Err(e),
            }
        },
        ExpressionIR::ItemGroup(ch) => {
            proof {
                assert(decreases_to!(gx => gx->ItemGroup_0));
            }
            match link_vec(covert, ch) {
                Ok(v) => Ok(ExpressionIR::ItemGroup(v)),
                Err(e) => Err(e),
            }
        },
        other => Ok(other),
    }
}

#[verifier::loop_isolation(false)]
fn link_vec(covert: &ExpressionSymbolCovert, v: Vec<ExpressionIR>) -> (r: Result<Vec<ExpressionIR>, TemplateError>)
    ensures
        match link_list(covert.covert.spec_view(), covert.symbol@, irs_view(v@)) {
            Ok(w) => r matches Ok(y) && irs_view(y@) == w,
            Err(m) => r matches Err(TemplateError::SyntaxError(e)) && e@ == m,
        },
    decreases v,
{
    let ghost c = covert.covert.spec_view();
    let ghost sym = covert.symbol@;
    let ghost orig = v@;
    let ghost ov = irs_view(v@);
    let n = v.len();
    let mut rest = v;
    let mut out: Vec<ExpressionIR> = Vec::new();
    let mut k: usize = 0;
    assert(irs_view(out@) =~= Seq::<SpecIR>::empty());
    assert(rest@ =~= orig.skip(0));
    while rest.len() > 0
        invariant
            n == orig.len(),
            rest@ == orig.skip(k as int),
            k <= orig.len(),
            link_each(c, sym, ov, k as int) == Ok::<Seq<SpecIR>, Seq<char>>(irs_view(out@)),
        decreases rest@.len(),
    {
        let x = rest.remove(0);
        assert(x == orig[k as int]);
        assert(ov[k as int] == x.spec_view());
        proof {
            assert(decreases_to!(v => v@));
            assert(decreases_to!(v@ => v@[k as int]));
        }
        let ghost before = irs_view(out@);
        match link_elem(covert, x) {
            Ok(y) => {
                out.push(y);
                assert(irs_view(out@) =~= before.push(y.spec_view()));
            },
            Err(e) => {
                proof {
                    lemma_link_each_err(c, sym, ov, k + 1, n as int);
                }
                return Err(e);
            },
        }
        assert(rest@ =~= orig.skip(k + 1));
        k = k + 1;
    }
    assert(k == n);
    reduce_symbol(covert, out)
}

proof fn lemma_link_each_err(c: SpecCovert, sym: Seq<char>, s: Seq<SpecIR>, k: int, n: int)
    requires
        0 < k <= n <= s.len(),
        link_each(c, sym, s, k) is Err,
    ensures
        link_each(c, sym, s, n) == link_each(c, sym, s, k),
    decreases n - k,
{
    if k < n {
        lemma_link_each_err(c, sym, s, k + 1, n);
    }
}

/// The first position of the symbol in `s`.
fn find_symbol(s: &Vec<ExpressionIR>, symbol: &ExpressionIR, Ghost(sym): Ghost<Seq<char>>) -> (r: Option<usize>)
    requires
        symbol.spec_view() == SpecIR::Symbol(crate::expression::specs::SpecSymbol::Custom(sym)),
    ensures
        match r {
            Some(k) => first_symbol(irs_view(s@), sym, 0) == Some(k as int),
            None => first_symbol(irs_view(s@), sym, 0) is None,
        },
{
    let ghost sv = irs_view(s@);
    let mut i: usize = 0;
    while i < s.len()
        invariant
            i <= s@.len(),
            sv == irs_view(s@),
            symbol.spec_view() == SpecIR::Symbol(crate::expression::specs::SpecSymbol::Custom(sym)),
            first_symbol(sv, sym, i as int) == first_symbol(sv, sym, 0),
        decreases s@.len() - i,
    {
        assert(sv[i as int] == s@[i as int].spec_view());
        if s[i] == *symbol {
            return Some(i);
        }
        i = i + 1;
    }
    None
}

#[verifier::loop_isolation(false)]
fn reduce_symbol(covert: &ExpressionSymbolCovert, v: Vec<ExpressionIR>) -> (r: Result<Vec<ExpressionIR>, TemplateError>)
    ensures
        match link_reduce(covert.covert.spec_view(), covert.symbol@, irs_view(v@)) {
            Ok(w) => r matches Ok(y) && irs_view(y@) == w,
            Err(m) => r matches Err(TemplateError::SyntaxError(e)) && e@ == m,
        },
{
    let ghost c = covert.covert.spec_view();
    let ghost sym = covert.symbol@;
    let symbol = ExpressionIR::ItemSymbol(SymbolType::Custom(covert.symbol.clone()));
    let mut src = v;
    loop
        invariant
            symbol.spec_view() == SpecIR::Symbol(crate::expression::specs::SpecSymbol::Custom(sym)),
            link_reduce(c, sym, irs_view(src@)) == link_reduce(c, sym, irs_view(v@)),
        decreases src@.len(),
    {
        let ghost cur = irs_view(src@);
        match find_symbol(&src, &symbol, Ghost(sym)) {
            None => {
                return Ok(src);
            },
            Some(k) => {
                proof {
                    lemma_first_symbol_range(cur, sym, 0);
                }
                let len = src.len();
                assert(k < len);
                if k % 2 != 1 || k + 1 >= len {
                    return Err(misplaced(&covert.symbol));
                }
                let right = src.remove(k + 1);
                let left = src.remove(k - 1);
                assert(left.spec_view() == cur[k - 1]);
                assert(right.spec_view() == cur[k + 1]);
                assert(irs_view(src@) =~= cur.take(k - 1) + seq![cur[k as int]] + cur.skip(k + 2));
                if let ExpressionIR::ItemSymbol(_) = &left {
                    return Err(operand_error(&left, &src));
                }
                if let ExpressionIR::ItemSymbol(_) = &right {
                    return Err(operand_error(&right, &src));
                }
                let ghost rest = irs_view(src@);
                let item = covert.covert.apply(left, right);
                src[k - 1] = item;
                assert(irs_view(src@) =~= cur.take(k - 1) + seq![spec_covert(c, cur[k - 1], cur[k + 1])] + cur.skip(k + 2));
            },
        }
    }
}

impl ExpressionManager {
    /// Links one operator: inside each part first, then among the parts, from the left;
    /// each occurrence and its two operands become a primitive (see [`link_list`]).
    pub fn link_symbol(covert: &ExpressionSymbolCovert, src: &mut Vec<ExpressionIR>) -> (r: TmplResult<()>)
        ensures
            link_result(r, irs_view(final(src)@), link_list(covert.covert.spec_view(), covert.symbol@, irs_view(old(src)@))),
    {
        let mut items: Vec<ExpressionIR> = Vec::new();
        std::mem::swap(src, &mut items);
        match link_vec(covert, items) {
            Ok(v) => {
                *src = v;
                Ok(())
            },
            Err(e) => Err(e),
        }
    }

    /// Links the operators of the manager in turn (see [`link_all`]).
    pub fn link_symbols(&self, src: &mut Vec<ExpressionIR>) -> (r: TmplResult<()>)
        ensures
            link_result(r, irs_view(final(src)@), link_all(self.spec_view().symbols, irs_view(old(src)@), self.symbols@.len() as int)),
    {
        let ghost s0 = irs_view(src@);
        let ghost syms = self.spec_view().symbols;
        let mut i: usize = 0;
        while i < self.symbols.len()
            invariant
                i <= self.symbols@.len(),
                syms == self.spec_view().symbols,
                s0 == irs_view(old(src)@),
                link_all(syms, s0, i as int) == Ok::<Seq<SpecIR>, Seq<char>>(irs_view(src@)),
            decreases self.symbols@.len() - i,
        {
            assert(syms[i as int] == (self.symbols@[i as int].symbol@, self.symbols@[i as int].covert.spec_view()));
            let ghost before = irs_view(src@);
            match Self::link_symbol(&self.symbols[i], src) {
                Ok(_) => {},
                Err(e) => {
                    proof {
                        assert(link_list(syms[i as int].1, syms[i as int].0, before) is Err);
                        assert(link_all(syms, s0, i + 1) is Err);
                        lemma_link_all_err(syms, s0, i + 1, self.symbols@.len() as int);
                    }
                    return Err(e);
                },
            }
            i = i + 1;
        }
        Ok(())
    }

    /// Translates the primitives that are defined in terms of others; the engine computes
    /// all of its primitives natively, so there is nothing to translate.
    pub fn link_static_primitives(&self, src: &mut [ExpressionIR]) -> (r: TmplResult<()>)
        ensures
            r is Ok,
            final(src)@ == old(src)@,
    {
        let mut i: usize = 0;
        while i < self.primitive_renders.len()
            invariant
                i <= self.primitive_renders@.len(),
            decreases self.primitive_renders@.len() - i,
        {
            match &self.primitive_renders[i].1 {
                PrimitiveRenderType::Native(_) => {},
            }
            i = i + 1;
        }
        Ok(())
    }
}

proof fn lemma_link_all_err(symbols: Seq<(Seq<char>, SpecCovert)>, s: Seq<SpecIR>, k: int, n: int)
    requires
        0 < k <= n <= symbols.len(),
        link_all(symbols, s, k) is Err,
    ensures
        link_all(symbols, s, n) == link_all(symbols, s, k),
    decreases n - k,
{
    if k < n {
        lemma_link_all_err(symbols, s, k + 1, n);
    }
}

} // verus!

verus! {

/// No symbol with text `sym` stands in the part, at any depth.
pub open spec fn lacks_symbol(x: SpecIR, sym: Seq<char>) -> bool
    decreases x,
{
    match x {
        SpecIR::Symbol(t) => symbol_text(t) != sym,
        SpecIR::Primitive(_, g) => forall|i: int| 0 <= i < g.len() ==> lacks_symbol(#[trigger] g[i], sym),
        SpecIR::Group(g) => forall|i: int| 0 <= i < g.len() ==> lacks_symbol(#[trigger] g[i], sym),
        _ => true,
    }
}

proof fn lemma_first_symbol_none(s: Seq<SpecIR>, sym: Seq<char>, i: int)
    requires
        0 <= i,
        forall|k: int| 0 <= k < s.len() ==> lacks_symbol(#[trigger] s[k], sym),
    ensures
        first_symbol(s, sym, i) is None,
    decreases s.len() - i,
{
    if i < s.len() {
        assert(lacks_symbol(s[i], sym));
        lemma_first_symbol_none(s, sym, i + 1);
    }
}

proof fn lemma_inside_lacks(c: SpecCovert, sym: Seq<char>, x: SpecIR)
    requires
        lacks_symbol(x, sym),
    ensures
        link_inside(c, sym, x) == Ok::<SpecIR, Seq<char>>(x),
    decreases x, 2int,
{
    match x {
        SpecIR::Primitive(n, g) => {
            lemma_list_lacks(c, sym, g);
        },
        SpecIR::Group(g) => {
            lemma_list_lacks(c, sym, g);
        },
        _ => {},
    }
}

proof fn lemma_list_lacks(c: SpecCovert, sym: Seq<char>, s: Seq<SpecIR>)
    requires
        forall|k: int| 0 <= k < s.len() ==> lacks_symbol(#[trigger] s[k], sym),
    ensures
        link_list(c, sym, s) == Ok::<Seq<SpecIR>, Seq<char>>(s),
    decreases s, 1int,
{
    lemma_each_lacks(c, sym, s, s.len() as int);
    assert(s.take(s.len() as int) =~= s);
    lemma_first_symbol_none(s, sym, 0);
}

proof fn lemma_each_lacks(c: SpecCovert, sym: Seq<char>, s: Seq<SpecIR>, n: int)
    requires
        0 <= n <= s.len(),
        forall|k: int| 0 <= k < s.len() ==> (#[trigger] s[k] is Symbol || lacks_symbol(s[k], sym)),
    ensures
        link_each(c, sym, s, n) == Ok::<Seq<SpecIR>, Seq<char>>(s.take(n)),
    decreases s, 0int, n,
{
    if n > 0 {
        lemma_each_lacks(c, sym, s, n - 1);
        if !(s[n - 1] is Symbol) {
            lemma_inside_lacks(c, sym, s[n - 1]);
        }
        assert(s.take(n - 1).push(s[n - 1]) =~= s.take(n));
    } else {
        assert(s.take(0) =~= Seq::<SpecIR>::empty());
    }
}

proof fn lemma_link_all_stays(symbols: Seq<(Seq<char>, SpecCovert)>, s: Seq<SpecIR>, v: Seq<SpecIR>, n: int, m: int)
    requires
        0 <= n <= m <= symbols.len(),
        link_all(symbols, s, n) == Ok::<Seq<SpecIR>, Seq<char>>(v),
        forall|k: int, q: int| 0 <= k < v.len() && n <= q < m ==> lacks_symbol(#[trigger] v[k], #[trigger] symbols[q].0),
    ensures
        link_all(symbols, s, m) == Ok::<Seq<SpecIR>, Seq<char>>(v),
    decreases m - n,
{
    if n < m {
        assert forall|k: int| 0 <= k < v.len() implies lacks_symbol(#[trigger] v[k], symbols[n].0) by {
            assert(lacks_symbol(v[k], symbols[n].0));
        }
        lemma_list_lacks(symbols[n].1, symbols[n].0, v);
        lemma_link_all_stays(symbols, s, v, n + 1, m);
    }
}

/// With the default operators, a product binds before a sum: `x + y * z` links as
/// `add(x, multi(y, z))`, for any values `x`, `y`, `z`.
pub proof fn lemma_default_product_binds_first(x: crate::value::SpecValue, y: crate::value::SpecValue, z: crate::value::SpecValue)
    ensures
        link_all(
            crate::expression::manager::default_symbol_table(),
            seq![
                SpecIR::Value(x),
                SpecIR::Symbol(crate::expression::specs::SpecSymbol::Custom(seq!['+'])),
                SpecIR::Value(y),
                SpecIR::Symbol(crate::expression::specs::SpecSymbol::Custom(seq!['*'])),
                SpecIR::Value(z),
            ],
            16,
        ) == Ok::<Seq<SpecIR>, Seq<char>>(
            seq![
                SpecIR::Primitive(
                    seq!['a', 'd', 'd'],
                    seq![SpecIR::Value(x), SpecIR::Primitive(seq!['m', 'u', 'l', 't', 'i'], seq![SpecIR::Value(y), SpecIR::Value(z)])],
                ),
            ],
        ),
{
    let t = crate::expression::manager::default_symbol_table();
    let plus = SpecIR::Symbol(crate::expression::specs::SpecSymbol::Custom(seq!['+']));
    let times = SpecIR::Symbol(crate::expression::specs::SpecSymbol::Custom(seq!['*']));
    let s0 = seq![SpecIR::Value(x), plus, SpecIR::Value(y), times, SpecIR::Value(z)];
    let p = SpecIR::Primitive(seq!['m', 'u', 'l', 't', 'i'], seq![SpecIR::Value(y), SpecIR::Value(z)]);
    let s1 = seq![SpecIR::Value(x), plus, p];
    let a = SpecIR::Primitive(seq!['a', 'd', 'd'], seq![SpecIR::Value(x), p]);
    let s2 = seq![a];
    assert(t.len() == 16);
    let sym_plus = seq!['+'];
    let sym_times = seq!['*'];
    assert(sym_plus != sym_times) by { assert(sym_plus[0] != sym_times[0]); }
    // "?:" is not there
    assert(t[0].0 == seq!['?', ':']);
    assert(sym_plus != t[0].0) by { assert(sym_plus.len() != t[0].0.len()); }
    assert(sym_times != t[0].0) by { assert(sym_times.len() != t[0].0.len()); }
    assert forall|k: int| 0 <= k < s0.len() implies lacks_symbol(#[trigger] s0[k], t[0].0) by {}
    lemma_list_lacks(t[0].1, t[0].0, s0);
    assert(link_all(t, s0, 0) == Ok::<Seq<SpecIR>, Seq<char>>(s0));
    assert(link_all(t, s0, 1) == Ok::<Seq<SpecIR>, Seq<char>>(s0));
    // "*" links y and z
    assert(t[1].0 == sym_times);
    assert forall|k: int| 0 <= k < s0.len() implies (#[trigger] s0[k] is Symbol || lacks_symbol(s0[k], sym_times)) by {}
    lemma_each_lacks(t[1].1, sym_times, s0, 5);
    assert(s0.take(5) =~= s0);
    reveal_with_fuel(first_symbol, 6);
    assert(first_symbol(s0, sym_times, 0) == Some(3int));
    assert(s0.take(2) + seq![spec_covert(t[1].1, s0[2], s0[4])] + s0.skip(5) =~= s1);
    assert forall|k: int| 0 <= k < s1.len() implies lacks_symbol(#[trigger] s1[k], sym_times) by {
        if k == 2 {
            assert(lacks_symbol(SpecIR::Value(y), sym_times));
            assert(lacks_symbol(SpecIR::Value(z), sym_times));
        }
    }
    lemma_first_symbol_none(s1, sym_times, 0);
    assert(link_reduce(t[1].1, sym_times, s1) == Ok::<Seq<SpecIR>, Seq<char>>(s1));
    assert(link_reduce(t[1].1, sym_times, s0) == Ok::<Seq<SpecIR>, Seq<char>>(s1));
    assert(link_all(t, s0, 2) == Ok::<Seq<SpecIR>, Seq<char>>(s1));
    // "/" and "%" are not there
    assert forall|k: int, q: int| 0 <= k < s1.len() && 2 <= q < 4 implies lacks_symbol(#[trigger] s1[k], #[trigger] t[q].0) by {
        assert(t[2].0 == seq!['/'] && t[3].0 == seq!['%']);
        assert(sym_plus != t[q].0) by { assert(sym_plus[0] != t[q].0[0]); }
        if k == 2 {
            assert(lacks_symbol(SpecIR::Value(y), t[q].0));
            assert(lacks_symbol(SpecIR::Value(z), t[q].0));
        }
    }
    lemma_link_all_stays(t, s0, s1, 2, 4);
    // "+" links x and the product
    assert(t[4].0 == sym_plus);
    assert(lacks_symbol(p, sym_plus)) by {
        assert(lacks_symbol(SpecIR::Value(y), sym_plus));
        assert(lacks_symbol(SpecIR::Value(z), sym_plus));
    }
    assert forall|k: int| 0 <= k < s1.len() implies (#[trigger] s1[k] is Symbol || lacks_symbol(s1[k], sym_plus)) by {}
    lemma_each_lacks(t[4].1, sym_plus, s1, 3);
    assert(s1.take(3) =~= s1);
    assert(first_symbol(s1, sym_plus, 0) == Some(1int));
    assert(s1.take(0) + seq![spec_covert(t[4].1, s1[0], s1[2])] + s1.skip(3) =~= s2);
    assert forall|q: Seq<char>| lacks_symbol(a, q) by {
        assert(lacks_symbol(SpecIR::Value(y), q));
        assert(lacks_symbol(SpecIR::Value(z), q));
        assert(lacks_symbol(p, q));
        assert(lacks_symbol(SpecIR::Value(x), q));
    }
    assert forall|k: int| 0 <= k < s2.len() implies lacks_symbol(#[trigger] s2[k], sym_plus) by {
        assert(lacks_symbol(a, sym_plus));
    }
    lemma_first_symbol_none(s2, sym_plus, 0);
    assert(link_reduce(t[4].1, sym_plus, s2) == Ok::<Seq<SpecIR>, Seq<char>>(s2));
    assert(link_all(t, s0, 5) == Ok::<Seq<SpecIR>, Seq<char>>(s2));
    // nothing is left to link
    assert forall|k: int, q: int| 0 <= k < s2.len() && 5 <= q < 16 implies lacks_symbol(#[trigger] s2[k], #[trigger] t[q].0) by {
        assert(lacks_symbol(a, t[q].0));
    }
    lemma_link_all_stays(t, s0, s2, 5, 16);
}
} // verus!
