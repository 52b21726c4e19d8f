use vstd::prelude::*;
use vstd::string::*;
use vstd::utf8::*;

use crate::expression::specs::{ir_eq, ir_eq_exec, ExpressionIR, SpecIR};
use crate::utils::chars::{spec_trim, trim};
use crate::utils::strings::{blocks_view, ignore_view, spec_group_from, Block, SpecBlock};
use crate::value::{SpecValue, TemplateValue};

verus! {

/// An expression while it is compiled: parts already read (`Tag`) and text not read yet
/// (`Original`).
#[derive(Debug)]
pub enum ExpressCompileIR<'a> {
    /// A part already read.
    Tag(ExpressionIR),
    /// Text not read yet.
    Original(&'a str),
}

/// The model of an [`ExpressCompileIR`]; text is held as its UTF-8 bytes.
pub enum SpecCIR {
    Tag(SpecIR),
    Original(Seq<u8>),
}

impl<'a> ExpressCompileIR<'a> {
    pub open spec fn spec_view(&self) -> SpecCIR {
        match self {
            ExpressCompileIR::Tag(ir) => SpecCIR::Tag(ir.spec_view()),
            ExpressCompileIR::Original(s) => SpecCIR::Original(s.spec_bytes()),
        }
    }
}

pub open spec fn cirs_view<'a>(v: Seq<ExpressCompileIR<'a>>) -> Seq<SpecCIR> {
    Seq::new(v.len(), |i: int| v[i].spec_view())
}

/// Equality of parts: read parts by [`ir_eq`], text by its bytes.
pub open spec fn cir_eq(a: SpecCIR, b: SpecCIR) -> bool {
    match a {
        SpecCIR::Tag(x) => b matches SpecCIR::Tag(y) && ir_eq(x, y),
        SpecCIR::Original(x) => b matches SpecCIR::Original(y) && x == y,
    }
}

/// Whether two strings have the same bytes.
pub fn str_eq(a: &str, b: &str) -> (r: bool)
    ensures
        r == (a.spec_bytes() == b.spec_bytes()),
{
    let x = a.as_bytes();
    let y = b.as_bytes();
    if x.len() != y.len() {
        return false;
    }
    let mut i: usize = 0;
    while i < x.len()
        invariant
            x@ == a.spec_bytes(),
            y@ == b.spec_bytes(),
            x@.len() == y@.len(),
            i <= x@.len(),
            forall|k: int| 0 <= k < i ==> x@[k] == y@[k],
        decreases x@.len() - i,
    {
        if x[i] != y[i] {
            return false;
        }
        i = i + 1;
    }
    assert(x@ =~= y@);
    true
}

impl<'a> PartialEq for ExpressCompileIR<'a> {
    fn eq(&self, other: &Self) -> (r: bool) {
        match (self, other) {
            (ExpressCompileIR::Tag(x), ExpressCompileIR::Tag(y)) => ir_eq_exec(x, y),
            (ExpressCompileIR::Original(x), ExpressCompileIR::Original(y)) => str_eq(x, y),
            _ => false,
        }
    }
}

impl<'a> vstd::std_specs::cmp::PartialEqSpecImpl for ExpressCompileIR<'a> {
    open spec fn obeys_eq_spec() -> bool {
        true
    }

    open spec fn eq_spec(&self, other: &Self) -> bool {
        cir_eq(self.spec_view(), other.spec_view())
    }
}

/// The bytes of `"`.
pub open spec fn double_quote() -> Seq<u8> {
    seq![34u8]
}

/// The bytes of `'`.
pub open spec fn single_quote() -> Seq<u8> {
    seq![39u8]
}

/// A quoted text, read as a text value.
pub open spec fn text_tag(d: Seq<u8>) -> SpecCIR {
    SpecCIR::Tag(SpecIR::Value(SpecValue::Text(decode_utf8(d))))
}

/// The blocks of text between single quotes (text values) and outside them (text not
/// read yet).
pub open spec fn quoted_parts(blocks: Seq<SpecBlock>) -> Seq<SpecCIR> {
    Seq::new(
        blocks.len(),
        |i: int|
            match blocks[i] {
                SpecBlock::Dynamic(d) => text_tag(d),
                SpecBlock::Static(d) => SpecCIR::Original(d),
            },
    )
}

/// The parts of the blocks of a text split at double quotes: a quoted block is a text
/// value, and the rest is split again at single quotes (the outer `None` marks the inputs
/// on which the splitting cannot complete).
pub open spec fn spec_static_parts(blocks: Seq<SpecBlock>) -> Option<Seq<SpecCIR>>
    decreases blocks.len(),
{
    if blocks.len() == 0 {
        Some(seq![])
    } else {
        match spec_static_parts(blocks.drop_last()) {
            None => None,
            Some(acc) => match blocks.last() {
                SpecBlock::Dynamic(d) => Some(acc.push(text_tag(d))),
                SpecBlock::Static(d) => match spec_group_from(
                    d,
                    0,
                    single_quote(),
                    single_quote(),
                    seq![(double_quote(), double_quote())],
                    false,
                ) {
                    None => None,
                    Some(inner) => Some(acc + quoted_parts(inner)),
                },
            },
        }
    }
}

/// The parts of an expression: its quoted texts as text values, and the text around them
/// not read yet (the outer `None` marks the inputs on which the splitting cannot complete).
pub open spec fn spec_parse_static(s: Seq<char>) -> Option<Seq<SpecCIR>> {
    match spec_group_from(
        encode_utf8(spec_trim(s)),
        0,
        double_quote(),
        double_quote(),
        seq![(single_quote(), single_quote())],
        false,
    ) {
        None => None,
        Some(blocks) => spec_static_parts(blocks),
    }
}

pub proof fn lemma_quote_bytes()
    ensures
        "\"".spec_bytes() == double_quote(),
        "'".spec_bytes() == single_quote(),
{
    reveal_strlit("\"");
    reveal_strlit("'");
    reveal_with_fuel(encode_utf8, 2);
    assert(seq!['"'].drop_first() =~= Seq::<char>::empty());
    assert(seq!['\''].drop_first() =~= Seq::<char>::empty());
    assert(34u32 & 0x7Fu32 == 34u32) by (bit_vector);
    assert(39u32 & 0x7Fu32 == 39u32) by (bit_vector);
    assert(('"' as u32) == 34u32);
    assert(('\'' as u32) == 39u32);
    assert(encode_scalar('"' as u32) =~= double_quote());
    assert(encode_scalar('\'' as u32) =~= single_quote());
    assert(encode_utf8(seq!['"']) =~= double_quote());
    assert(encode_utf8(seq!['\'']) =~= single_quote());
}

fn text_part<'a>(d: &'a str) -> (r: ExpressCompileIR<'a>)
    ensures
        r.spec_view() == text_tag(d.spec_bytes()),
{
    proof {
        encode_utf8_decode_utf8(d@);
    }
    ExpressCompileIR::Tag(ExpressionIR::ItemValue(TemplateValue::Text(String::from_str(d))))
}

impl ExpressCompileIR<'static> {
    /// Reads the quoted texts of an expression (after trimming it): text between double
    /// quotes, or between single quotes outside them, becomes a text value; the text around
    /// is left to be read.
    pub fn parse_static_str<'a>(src: &'a str) -> (r: Vec<ExpressCompileIR<'a>>)
        requires
            spec_parse_static(src@) is Some,
        ensures
            cirs_view(r@) == spec_parse_static(src@)->0,
    {
        let text = trim(src);
        proof {
            lemma_quote_bytes();
        }
        let outer_ignore: Vec<(&str, &str)> = vec![("'", "'")];
        let inner_ignore: Vec<(&str, &str)> = vec![("\"", "\"")];
        assert(ignore_view(outer_ignore@) =~= seq![(single_quote(), single_quote())]);
        assert(ignore_view(inner_ignore@) =~= seq![(double_quote(), double_quote())]);
        let blocks = Block::new_group(text, "\"", "\"", &outer_ignore, false);
        let ghost bv = blocks_view(blocks@);
        let mut out: Vec<ExpressCompileIR<'a>> = Vec::new();
        let mut i: usize = 0;
        assert(bv.take(0) =~= Seq::<SpecBlock>::empty());
        while i < blocks.len()
            invariant
                i <= blocks@.len(),
                bv == blocks_view(blocks@),
                ignore_view(inner_ignore@) == seq![(double_quote(), double_quote())],
                "'".spec_bytes() == single_quote(),
                spec_static_parts(bv) is Some,
                spec_static_parts(bv.take(i as int)) == Some(cirs_view(out@)),
            decreases blocks@.len() - i,
        {
            assert(bv.take(i + 1).drop_last() =~= bv.take(i as int));
            proof {
                lemma_static_parts_prefix(bv, i + 1);
            }
            match blocks[i] {
                Block::Dynamic(d) => {
                    out.push(text_part(d));
                    assert(cirs_view(out@) =~= cirs_view(out@).drop_last().push(text_tag(d.spec_bytes())));
                },
                Block::Static(d) => {
                    let inner = Block::new_group(d, "'", "'", &inner_ignore, false);
                    let ghost before = cirs_view(out@);
                    let ghost iv = blocks_view(inner@);
                    let mut j: usize = 0;
                    while j < inner.len()
                        invariant
                            j <= inner@.len(),
                            iv == blocks_view(inner@),
                            cirs_view(out@) == before + quoted_parts(iv).take(j as int),
                        decreases inner@.len() - j,
                    {
                        let ghost prev = cirs_view(out@);
                        match inner[j] {
                            Block::Dynamic(q) => out.push(text_part(q)),
                            Block::Static(q) => out.push(ExpressCompileIR::Original(q)),
                        }
                        assert(cirs_view(out@) =~= prev.push(quoted_parts(iv)[j as int]));
                        assert(quoted_parts(iv).take(j + 1) =~= quoted_parts(iv).take(j as int).push(quoted_parts(iv)[j as int]));
                        assert(cirs_view(out@) =~= before + quoted_parts(iv).take(j + 1));
                        j = j + 1;
                    }
                    assert(quoted_parts(iv).take(inner@.len() as int) =~= quoted_parts(iv));
                },
            }
            i = i + 1;
        }
        assert(bv.take(blocks@.len() as int) =~= bv);
        out
    }
}

proof fn lemma_static_parts_prefix(blocks: Seq<SpecBlock>, n: int)
    requires
        0 <= n <= blocks.len(),
        spec_static_parts(blocks) is Some,
    ensures
        spec_static_parts(blocks.take(n)) is Some,
    decreases blocks.len() - n,
{
    if n < blocks.len() {
        lemma_static_parts_prefix(blocks, n + 1);
        assert(blocks.take(n + 1).drop_last() =~= blocks.take(n));
    } else {
        assert(blocks.take(n) =~= blocks);
    }
}

} // verus!
