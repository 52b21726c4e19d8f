use vstd::prelude::*;
use vstd::string::*;
use vstd::utf8::*;

use crate::error::TmplResult;
use crate::expression::manager::{ExpressionManager, SpecManager};
use crate::expression::parse::{cirs_view, ExpressCompileIR, SpecCIR};
use crate::expression::specs::{
    irs_view, strings_view, symbol_text, ExpressionIR, SpecIR, SpecSymbol, SymbolType,
};
use crate::statement::dynamic::nonempty;
use crate::utils::chars::{spec_split, spec_trim, split_char, trim};
use crate::utils::strings::{find, lemma_find_some, slice_str, spec_find};
use crate::value::parse::spec_value_from;
use crate::value::{SpecValue, TemplateValue};

verus! {

/// Text not read yet, unless it is empty.
pub open spec fn piece(x: Seq<u8>) -> Seq<SpecCIR> {
    if x.len() > 0 {
        seq![SpecCIR::Original(x)]
    } else {
        seq![]
    }
}

/// The text `s` from byte `from` on, split at the occurrences of `t` (found as
/// [`spec_find`] finds them, so an occurrence right after a backslash is skipped): the
/// nonempty pieces between them stay unread, each occurrence becomes the symbol `sym`.
pub open spec fn spec_split_symbol(s: Seq<u8>, from: int, t: Seq<u8>, sym: SpecSymbol) -> Seq<SpecCIR>
    decreases s.len() - from,
{
    if from < 0 || from > s.len() || t.len() == 0 {
        seq![]
    } else {
        match spec_find(s, from, t) {
            Some(Some(p)) => if from <= p && p + t.len() <= s.len() {
                piece(s.subrange(from, p)) + seq![SpecCIR::Tag(SpecIR::Symbol(sym))] + spec_split_symbol(
                    s,
                    p + t.len(),
                    t,
                    sym,
                )
            } else {
                seq![]
            },
            _ => piece(s.subrange(from, s.len() as int)),
        }
    }
}

/// Every unread text of `v` split at the occurrences of `t`, which become `sym`.
pub open spec fn spec_tag_once(v: Seq<SpecCIR>, t: Seq<u8>, sym: SpecSymbol) -> Seq<SpecCIR>
    decreases v.len(),
{
    if v.len() == 0 {
        seq![]
    } else {
        spec_tag_once(v.drop_last(), t, sym) + match v.last() {
            SpecCIR::Original(s) => spec_split_symbol(s, 0, t, sym),
            SpecCIR::Tag(x) => seq![SpecCIR::Tag(x)],
        }
    }
}

/// `v` split at the first `n` operators of `symbols`, in turn.
pub open spec fn spec_tag_symbols(v: Seq<SpecCIR>, symbols: Seq<(Seq<char>, crate::expression::manager::SpecCovert)>, n: int) -> Seq<SpecCIR>
    decreases n,
{
    if n <= 0 || n > symbols.len() {
        v
    } else {
        spec_tag_once(
            spec_tag_symbols(v, symbols, n - 1),
            encode_utf8(symbols[n - 1].0),
            SpecSymbol::Custom(symbols[n - 1].0),
        )
    }
}

/// `v` split at the operators of `m`, then at brackets and commas.
pub open spec fn spec_tag_all(m: SpecManager, v: Seq<SpecCIR>) -> Seq<SpecCIR> {
    let w = spec_tag_symbols(v, m.symbols, m.symbols.len() as int);
    let w1 = spec_tag_once(w, encode_utf8(seq!['(']), SpecSymbol::BlockStart);
    let w2 = spec_tag_once(w1, encode_utf8(seq![')']), SpecSymbol::BlockEnd);
    spec_tag_once(w2, encode_utf8(seq![',']), SpecSymbol::BlockCut)
}

/// A piece of text that is not only whitespace.
pub open spec fn not_blank() -> spec_fn(Seq<char>) -> bool {
    |w: Seq<char>| spec_trim(w).len() > 0
}

/// A part read: text (trimmed) that is a float, a number or a boolean becomes that value,
/// other text a variable: its pieces between dots that are not blank.
pub open spec fn spec_read_part(c: SpecCIR) -> SpecIR {
    match c {
        SpecCIR::Tag(x) => x,
        SpecCIR::Original(b) => {
            let d = spec_trim(decode_utf8(b));
            match spec_value_from(d) {
                SpecValue::Float(f) => SpecIR::Value(SpecValue::Float(f)),
                SpecValue::Number(n) => SpecIR::Value(SpecValue::Number(n)),
                SpecValue::Bool(x) => SpecIR::Value(SpecValue::Bool(x)),
                _ => SpecIR::Variable(spec_split(d, '.').filter(not_blank())),
            }
        },
    }
}

/// The part is a variable without pieces.
pub open spec fn empty_variable(x: SpecIR) -> bool {
    x matches SpecIR::Variable(v) && v.len() == 0
}

/// The parts read, without the variables that have no pieces.
pub open spec fn spec_read_parts(v: Seq<SpecCIR>) -> Seq<SpecIR>
    decreases v.len(),
{
    if v.len() == 0 {
        seq![]
    } else {
        let x = spec_read_part(v.last());
        if empty_variable(x) {
            spec_read_parts(v.drop_last())
        } else {
            spec_read_parts(v.drop_last()).push(x)
        }
    }
}

/// What [`ExpressionManager::tagged_symbols`] makes of the parts `v`.
pub open spec fn spec_tagged(m: SpecManager, v: Seq<SpecCIR>) -> Seq<SpecIR> {
    spec_read_parts(spec_tag_all(m, v))
}

proof fn lemma_encode_nonempty(c: Seq<char>)
    requires
        c.len() > 0,
    ensures
        encode_utf8(c).len() > 0,
{
    encode_utf8_first_scalar(c);
}

/// Appends to `out` the parts of `src` split at the occurrences of `text`.
fn split_symbol<'a>(src: &'a str, text: &str, symbol: &SymbolType, out: &mut Vec<ExpressCompileIR<'a>>)
    requires
        text.spec_bytes().len() > 0,
        text@ == symbol_text(symbol.spec_view()),
    ensures
        cirs_view(final(out)@) == cirs_view(old(out)@) + spec_split_symbol(src.spec_bytes(), 0, text.spec_bytes(), symbol.spec_view()),
{
    let ghost s = src.spec_bytes();
    let ghost t = text.spec_bytes();
    let ghost sym = symbol.spec_view();
    let ghost base = cirs_view(out@);
    let n = src.as_bytes().len();
    let tl = text.as_bytes().len();
    proof {
        encode_utf8_valid_utf8(src@);
        encode_utf8_valid_utf8(text@);
        is_char_boundary_start_end_of_seq(s);
    }
    let mut last: usize = 0;
    assert(cirs_view(out@) + spec_split_symbol(s, 0, t, sym) =~= base + spec_split_symbol(s, 0, t, sym));
    loop
        invariant
            s == src.spec_bytes(),
            t == text.spec_bytes(),
            sym == symbol.spec_view(),
            text@ == symbol_text(sym),
            n == s.len(),
            tl == t.len(),
            tl > 0,
            valid_utf8(s),
            valid_utf8(t),
            last <= n,
            is_char_boundary(s, last as int),
            is_char_boundary(s, n as int),
            base == cirs_view(old(out)@),
            cirs_view(out@) + spec_split_symbol(s, last as int, t, sym) == base + spec_split_symbol(s, 0, t, sym),
        decreases n - last,
    {
        proof {
            lemma_find_some(s, last as int, t);
        }
        let ghost before = cirs_view(out@);
        match find(src, last, text) {
            Some(idx) => {
                let ghost rest = spec_split_symbol(s, idx + tl, t, sym);
                if idx > last {
                    out.push(ExpressCompileIR::Original(slice_str(src, last, idx)));
                }
                let ghost mid = cirs_view(out@);
                assert(mid =~= before + piece(s.subrange(last as int, idx as int)));
                out.push(ExpressCompileIR::Tag(ExpressionIR::ItemSymbol(symbol.clone())));
                assert(cirs_view(out@) =~= mid.push(SpecCIR::Tag(SpecIR::Symbol(sym))));
                assert(cirs_view(out@) + rest =~= before + spec_split_symbol(s, last as int, t, sym));
                last = idx + tl;
            },
            None => {
                if last < n {
                    out.push(ExpressCompileIR::Original(slice_str(src, last, n)));
                }
                assert(cirs_view(out@) =~= before + piece(s.subrange(last as int, n as int)));
                assert(cirs_view(out@) =~= base + spec_split_symbol(s, 0, t, sym));
                return;
            },
        }
    }
}

impl ExpressionManager {
    /// Splits every unread text of `input` at the occurrences of the text of `symbol`
    /// (an occurrence right after a backslash is skipped), which become `symbol`.
    pub fn tagged_symbols_once(input: &mut Vec<ExpressCompileIR>, symbol: SymbolType) -> (r: TmplResult<()>)
        requires
            symbol_text(symbol.spec_view()).len() > 0,
        ensures
            r is Ok,
            cirs_view(final(input)@) == spec_tag_once(
                cirs_view(old(input)@),
                encode_utf8(symbol_text(symbol.spec_view())),
                symbol.spec_view(),
            ),
    {
        let ghost sym = symbol.spec_view();
        let text = symbol.to_string();
        let ghost t = encode_utf8(text@);
        proof {
            lemma_encode_nonempty(text@);
        }
        let mut items: Vec<ExpressCompileIR> = Vec::new();
        std::mem::swap(input, &mut items);
        let ghost iv = cirs_view(items@);
        let mut i: usize = 0;
        assert(iv.take(0) =~= Seq::<SpecCIR>::empty());
        assert(cirs_view(input@) =~= Seq::<SpecCIR>::empty());
        while i < items.len()
            invariant
                i <= items@.len(),
                iv == cirs_view(items@),
                sym == symbol.spec_view(),
                text@ == symbol_text(sym),
                t == encode_utf8(text@),
                t.len() > 0,
                cirs_view(input@) == spec_tag_once(iv.take(i as int), t, sym),
            decreases items@.len() - i,
        {
            assert(iv.take(i + 1).drop_last() =~= iv.take(i as int));
            assert(iv.take(i + 1).last() == iv[i as int]);
            let ghost before = cirs_view(input@);
            match &items[i] {
                ExpressCompileIR::Original(s) => {
                    split_symbol(s, text.as_str(), &symbol, input);
                },
                ExpressCompileIR::Tag(x) => {
                    input.push(ExpressCompileIR::Tag(x.clone()));
                    assert(cirs_view(input@) =~= before + seq![iv[i as int]]);
                },
            }
            i = i + 1;
        }
        assert(iv.take(items@.len() as int) =~= iv);
        Ok(())
    }
}

/// The pieces of `d` between dots that are not blank.
fn variable_pieces(d: &str) -> (r: Vec<String>)
    ensures
        strings_view(r@) == spec_split(d@, '.').filter(not_blank()),
{
    let pieces = split_char(d, '.');
    let ghost pv = Seq::new(pieces@.len(), |k: int| pieces@[k]@);
    assert(pv =~= spec_split(d@, '.'));
    let ghost pred = not_blank();
    let mut out: Vec<String> = Vec::new();
    let mut i: usize = 0;
    assert(pv.take(0) =~= Seq::<Seq<char>>::empty());
    proof {
        reveal(Seq::filter);
    }
    assert(strings_view(out@) =~= pv.take(0).filter(pred));
    while i < pieces.len()
        invariant
            i <= pieces@.len(),
            pred == not_blank(),
            pv == Seq::new(pieces@.len(), |k: int| pieces@[k]@),
            strings_view(out@) == pv.take(i as int).filter(pred),
        decreases pieces@.len() - i,
    {
        let ghost prev = pv.take(i as int).filter(pred);
        let ghost cur = pieces@[i as int]@;
        assert(pv.take(i + 1).drop_last() =~= pv.take(i as int));
        assert(pv.take(i + 1).last() == cur);
        assert(pv.take(i + 1).filter(pred) == (if spec_trim(cur).len() > 0 {
            prev.push(cur)
        } else {
            prev
        })) by {
            reveal(Seq::filter);
        }
        if trim(pieces[i]).unicode_len() > 0 {
            out.push(String::from_str(pieces[i]));
            assert(strings_view(out@) =~= prev.push(cur));
        }
        i = i + 1;
    }
    assert(pv.take(pieces@.len() as int) =~= pv);
    out
}

/// A part read (see [`spec_read_part`]).
fn read_part(c: &ExpressCompileIR) -> (r: ExpressionIR)
    ensures
        r.spec_view() == spec_read_part(c.spec_view()),
{
    match c {
        ExpressCompileIR::Tag(x) => x.clone(),
        ExpressCompileIR::Original(data) => {
            proof {
                encode_utf8_decode_utf8(data@);
            }
            let d = trim(data);
            let v = TemplateValue::from(d);
            match v {
                TemplateValue::Float(f) => ExpressionIR::ItemValue(TemplateValue::Float(f)),
                TemplateValue::Number(n) => ExpressionIR::ItemValue(TemplateValue::Number(n)),
                TemplateValue::Bool(b) => ExpressionIR::ItemValue(TemplateValue::Bool(b)),
                _ => ExpressionIR::ItemVariable(variable_pieces(d)),
            }
        },
    }
}

impl ExpressionManager {
    /// Reads the parts of an expression: the unread text is split at the operators of the
    /// manager (in order), then at brackets and commas; what is left of it becomes values
    /// and variables (see [`spec_tagged`]).
    pub fn tagged_symbols(&self, src: Vec<ExpressCompileIR>) -> (r: TmplResult<Vec<ExpressionIR>>)
        requires
            self.wf(),
        ensures
            r is Ok,
            irs_view(r->Ok_0@) == spec_tagged(self.spec_view(), cirs_view(src@)),
    {
        let ghost m = self.spec_view();
        let ghost v0 = cirs_view(src@);
        let mut src = src;
        let mut k: usize = 0;
        while k < self.symbols.len()
            invariant
                self.wf(),
                m == self.spec_view(),
                k <= self.symbols@.len(),
                cirs_view(src@) == spec_tag_symbols(v0, m.symbols, k as int),
            decreases self.symbols@.len() - k,
        {
            let sym = SymbolType::Custom(self.symbols[k].symbol.clone());
            assert(m.symbols[k as int].0 == self.symbols@[k as int].symbol@);
            assert(self.symbols@[k as int].symbol@.len() > 0);
            let _ = Self::tagged_symbols_once(&mut src, sym);
            k = k + 1;
        }
        let _ = Self::tagged_symbols_once(&mut src, SymbolType::BlockStart);
        let _ = Self::tagged_symbols_once(&mut src, SymbolType::BlockEnd);
        let _ = Self::tagged_symbols_once(&mut src, SymbolType::BlockCut);
        let ghost w = cirs_view(src@);
        assert(w == spec_tag_all(m, v0));
        let mut out: Vec<ExpressionIR> = Vec::new();
        let mut i: usize = 0;
        assert(w.take(0) =~= Seq::<SpecCIR>::empty());
        while i < src.len()
            invariant
                i <= src@.len(),
                w == cirs_view(src@),
                irs_view(out@) == spec_read_parts(w.take(i as int)),
            decreases src@.len() - i,
        {
            assert(w.take(i + 1).drop_last() =~= w.take(i as int));
            assert(w.take(i + 1).last() == w[i as int]);
            let x = read_part(&src[i]);
            let keep = match &x {
                ExpressionIR::ItemVariable(v) => v.len() > 0,
                _ => true,
            };
            let ghost before = irs_view(out@);
            if keep {
                out.push(x);
                assert(irs_view(out@) =~= before.push(spec_read_part(w[i as int])));
            }
            i = i + 1;
        }
        assert(w.take(src@.len() as int) =~= w);
        Ok(out)
    }
}

} // verus!

verus! {

/// The text of parts split at a symbol whose text is `t`: unread text as it is, the symbol
/// as `t`.
pub open spec fn parts_text(ps: Seq<SpecCIR>, t: Seq<u8>) -> Seq<u8>
    decreases ps.len(),
{
    if ps.len() == 0 {
        seq![]
    } else {
        (match ps[0] {
            SpecCIR::Original(x) => x,
            SpecCIR::Tag(_) => t,
        }) + parts_text(ps.drop_first(), t)
    }
}

proof fn lemma_parts_text_concat(a: Seq<SpecCIR>, b: Seq<SpecCIR>, t: Seq<u8>)
    ensures
        parts_text(a + b, t) == parts_text(a, t) + parts_text(b, t),
    decreases a.len(),
{
    if a.len() == 0 {
        assert(a + b =~= b);
        assert(parts_text(a, t) =~= Seq::<u8>::empty());
        assert(parts_text(a, t) + parts_text(b, t) =~= parts_text(b, t));
    } else {
        assert((a + b).drop_first() =~= a.drop_first() + b);
        assert((a + b)[0] == a[0]);
        lemma_parts_text_concat(a.drop_first(), b, t);
        let h = match a[0] {
            SpecCIR::Original(x) => x,
            SpecCIR::Tag(_) => t,
        };
        assert(h + (parts_text(a.drop_first(), t) + parts_text(b, t)) =~= (h + parts_text(a.drop_first(), t)) + parts_text(b, t));
    }
}

proof fn lemma_piece_text(x: Seq<u8>, t: Seq<u8>)
    ensures
        parts_text(piece(x), t) == x,
{
    reveal_with_fuel(parts_text, 2);
    if x.len() > 0 {
        assert(seq![SpecCIR::Original(x)].drop_first() =~= Seq::<SpecCIR>::empty());
        assert(x + Seq::<u8>::empty() =~= x);
    } else {
        assert(x =~= Seq::<u8>::empty());
    }
}

/// Splitting valid UTF-8 text at a symbol loses nothing: the unread pieces and the
/// symbol's text, joined again, give back the text.
pub proof fn lemma_split_symbol_keeps_text(s: Seq<u8>, from: int, t: Seq<u8>, sym: SpecSymbol)
    requires
        valid_utf8(s),
        valid_utf8(t),
        t.len() > 0,
        0 <= from <= s.len(),
        is_char_boundary(s, from),
    ensures
        parts_text(spec_split_symbol(s, from, t, sym), t) == s.subrange(from, s.len() as int),
    decreases s.len() - from,
{
    crate::utils::strings::lemma_find_some(s, from, t);
    crate::utils::strings::lemma_find_result(s, from, t);
    match spec_find(s, from, t)->0 {
        Some(p) => {
            let sym_part = seq![SpecCIR::Tag(SpecIR::Symbol(sym))];
            let rest = spec_split_symbol(s, p + t.len(), t, sym);
            lemma_split_symbol_keeps_text(s, p + t.len(), t, sym);
            lemma_parts_text_concat(piece(s.subrange(from, p)), sym_part, t);
            lemma_parts_text_concat(piece(s.subrange(from, p)) + sym_part, rest, t);
            lemma_piece_text(s.subrange(from, p), t);
            assert(sym_part.drop_first() =~= Seq::<SpecCIR>::empty());
            assert(parts_text(sym_part, t) =~= t) by {
                reveal_with_fuel(parts_text, 2);
            }
            assert(s.subrange(p, p + t.len()) =~= t);
            assert(s.subrange(from, p) + t + s.subrange(p + t.len(), s.len() as int) =~= s.subrange(from, s.len() as int));
        },
        None => {
            lemma_piece_text(s.subrange(from, s.len() as int), t);
        },
    }
}

} // verus!
