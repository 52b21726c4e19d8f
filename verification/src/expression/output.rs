use vstd::prelude::*;
use vstd::string::*;

use crate::error::{TemplateError, TmplResult};
use crate::expression::specs::{
    irs_view, strings_view, symbol_text, trees_view, ExpressionAST, ExpressionAstTree, ExpressionIR,
    SpecIR, SpecTree,
};
use crate::value::format::{join, join_texts, texts_view, value_text};
use crate::value::parse::spec_value_from;
use crate::value::{SpecValue, TemplateValue};

verus! {

/// The value of a key of a variable path: a number if the key is one, else its text.
pub open spec fn key_value(k: Seq<char>) -> SpecValue {
    match spec_value_from(k) {
        SpecValue::Number(n) => SpecValue::Number(n),
        _ => SpecValue::Text(k),
    }
}

/// The first `n` pieces of a variable path as a tree: the variable named by the first
/// piece, then a `get` of each further piece as a key.
pub open spec fn var_chain(vars: Seq<Seq<char>>, n: int) -> SpecTree
    decreases n,
{
    if n <= 1 {
        SpecTree::Variable(vars[0])
    } else {
        SpecTree::Primitive(
            seq!['g', 'e', 't'],
            seq![var_chain(vars, n - 1), SpecTree::Value(key_value(vars[n - 1]))],
        )
    }
}

/// The tree of a part: `Some(Err(..))` for a group or a symbol, which have none (the outer
/// `None` marks the inputs on which this cannot complete: a variable without pieces).
pub open spec fn spec_to_ast(x: SpecIR) -> Option<Result<SpecTree, ()>>
    decreases x, 1int,
{
    match x {
        SpecIR::Group(_) => Some(Err(())),
        SpecIR::Symbol(_) => Some(Err(())),
        SpecIR::Value(v) => Some(Ok(SpecTree::Value(v))),
        SpecIR::Primitive(n, ch) => match spec_to_asts(ch, ch.len() as int) {
            None => None,
            Some(ts) => Some(Ok(SpecTree::Primitive(n, ts))),
        },
        SpecIR::Variable(vars) => if vars.len() == 0 {
            None
        } else {
            Some(Ok(var_chain(vars, vars.len() as int)))
        },
    }
}

/// The trees of the first `n` parts of `ch`; a part without a tree is left out.
pub open spec fn spec_to_asts(ch: Seq<SpecIR>, n: int) -> Option<Seq<SpecTree>>
    decreases ch, 0int, n,
{
    if n <= 0 || n > ch.len() {
        Some(seq![])
    } else {
        match spec_to_asts(ch, n - 1) {
            None => None,
            Some(ts) => match spec_to_ast(ch[n - 1]) {
                None => None,
                Some(Err(_)) => Some(ts),
                Some(Ok(t)) => Some(ts.push(t)),
            },
        }
    }
}

fn key_of(item: &String) -> (r: TemplateValue)
    ensures
        r.spec_view() == key_value(item@),
{
    match TemplateValue::from(item.as_str()) {
        TemplateValue::Number(n) => TemplateValue::Number(n),
        _ => TemplateValue::Text(item.clone()),
    }
}

fn trees_of(ch: Vec<ExpressionIR>, Ghost(outer): Ghost<ExpressionIR>) -> (r: Vec<ExpressionAstTree>)
    requires
        forall|k: int| 0 <= k < ch@.len() ==> decreases_to!(outer => #[trigger] ch@[k]),
        spec_to_asts(irs_view(ch@), ch@.len() as int) is Some,
    ensures
        trees_view(r@) == spec_to_asts(irs_view(ch@), ch@.len() as int)->0,
    decreases outer, 0int,
{
    let ghost orig = ch@;
    let ghost ov = irs_view(ch@);
    let n = ch.len();
    let mut rest = ch;
    let mut out: Vec<ExpressionAstTree> = Vec::new();
    let mut k: usize = 0;
    assert(trees_view(out@) =~= Seq::<SpecTree>::empty());
    while rest.len() > 0
        invariant
            forall|j: int| 0 <= j < orig.len() ==> decreases_to!(outer => #[trigger] orig[j]),
            ov == irs_view(orig),
            n == orig.len(),
            spec_to_asts(ov, n as int) is Some,
            rest@ == orig.skip(k as int),
            k <= orig.len(),
            spec_to_asts(ov, k as int) == Some(trees_view(out@)),
        decreases rest@.len(),
    {
        let x = rest.remove(0);
        assert(x == orig[k as int]);
        assert(ov[k as int] == x.spec_view());
        proof {
            lemma_to_asts_prefix(ov, k + 1, n as int);
            assert(decreases_to!(outer => orig[k as int]));
        }
        let ghost before = trees_view(out@);
        match ExpressionIR::to_ast(x) {
            Ok(t) => {
                out.push(t);
                assert(trees_view(out@) =~= before.push(t.spec_view()));
            },
            Err(_) => {},
        }
        assert(rest@ =~= orig.skip(k + 1));
        k = k + 1;
    }
    assert(k == n);
    out
}

proof fn lemma_to_asts_prefix(ch: Seq<SpecIR>, k: int, n: int)
    requires
        0 <= k <= n <= ch.len(),
        spec_to_asts(ch, n) is Some,
    ensures
        spec_to_asts(ch, k) is Some,
    decreases n - k,
{
    if k < n {
        lemma_to_asts_prefix(ch, k, n - 1);
    }
}

impl ExpressionIR {
    /// The tree of a part (see [`spec_to_ast`]); a group or a symbol has none and is a
    /// syntax error, and an argument of a primitive without a tree is left out.
    pub fn to_ast(self) -> (r: TmplResult<ExpressionAstTree>)
        requires
            spec_to_ast(self.spec_view()) is Some,
        ensures
            match spec_to_ast(self.spec_view())->0 {
                Ok(t) => r matches Ok(x) && x.spec_view() == t,
                Err(_) => r matches Err(TemplateError::SyntaxError(m))
                    && m@ == "无法将 IR 的 Group/Symbol 转换为 AST，可能是 IR 存在未知符号或语法错误."@,
            },
        decreases self, 1int,
    {
        let ghost g = self;
        match self {
            ExpressionIR::ItemGroup(_) | ExpressionIR::ItemSymbol(_) => {
                Err(TemplateError::SyntaxError(String::from_str("无法将 IR 的 Group/Symbol 转换为 AST，可能是 IR 存在未知符号或语法错误.")))
            },
            ExpressionIR::ItemValue(value) => Ok(ExpressionAstTree::ItemValue(value)),
            ExpressionIR::ItemPrimitive(name, child) => {
                proof {
                    assert forall|k: int| 0 <= k < child@.len() implies decreases_to!(g => #[trigger] child@[k]) by {
                        assert(decreases_to!(g => g->ItemPrimitive_1));
                        assert(decreases_to!(g->ItemPrimitive_1 => g->ItemPrimitive_1[k]));
                    }
                }
                Ok(ExpressionAstTree::ItemPrimitive(name, trees_of(child, Ghost(g))))
            },
            ExpressionIR::ItemVariable(vars) => {
                let ghost vv = strings_view(vars@);
                let mut left = ExpressionAstTree::ItemVariable(vars[0].clone());
                let mut i: usize = 1;
                proof {
                    reveal_strlit("get");
                }
                while i < vars.len()
                    invariant
                        1 <= i <= vars@.len(),
                        vv == strings_view(vars@),
                        left.spec_view() == var_chain(vv, i as int),
                    decreases vars@.len() - i,
                {
                    let right = ExpressionAstTree::ItemValue(key_of(&vars[i]));
                    let ghost lv = left.spec_view();
                    let ghost rv = right.spec_view();
                    let args = vec![left, right];
                    assert(trees_view(args@) =~= seq![lv, rv]);
                    proof {
                        reveal_strlit("get");
                    }
                    let get = String::from_str("get");
                    assert(get@ =~= seq!['g', 'e', 't']);
                    left = ExpressionAstTree::ItemPrimitive(get, args);
                    assert(left.spec_view() =~~= var_chain(vv, i + 1));
                    i = i + 1;
                }
                Ok(left)
            },
        }
    }
}

/// The names of the variables of a tree, in pre-order.
pub open spec fn tree_vars(t: SpecTree) -> Seq<Seq<char>>
    decreases t, 1int,
{
    match t {
        SpecTree::Value(_) => seq![],
        SpecTree::Variable(n) => seq![n],
        SpecTree::Primitive(_, ch) => trees_vars(ch),
    }
}

/// The names of the variables of the trees `ch`, in pre-order.
pub open spec fn trees_vars(ch: Seq<SpecTree>) -> Seq<Seq<char>>
    decreases ch, 0int,
{
    if ch.len() == 0 {
        seq![]
    } else {
        tree_vars(ch[0]) + trees_vars(ch.drop_first())
    }
}

/// Appends the names of the variables of `t` to `variables`, in pre-order.
#[verifier::loop_isolation(false)]
fn put_variables(t: &ExpressionAstTree, variables: &mut Vec<String>)
    ensures
        strings_view(final(variables)@) == strings_view(old(variables)@) + tree_vars(t.spec_view()),
    decreases t,
{
    let ghost base = strings_view(variables@);
    match t {
        ExpressionAstTree::ItemVariable(name) => {
            variables.push(name.clone());
            assert(strings_view(variables@) =~= base + seq![name@]);
        },
        ExpressionAstTree::ItemPrimitive(_, child) => {
            let ghost tv = trees_view(child@);
            let mut i: usize = 0;
            assert(tv.skip(0) =~= tv);
            assert(strings_view(variables@) + trees_vars(tv.skip(0)) =~= base + trees_vars(tv));
            while i < child.len()
                invariant
                    i <= child@.len(),
                    strings_view(variables@) + trees_vars(tv.skip(i as int)) == base + trees_vars(tv),
                decreases child@.len() - i,
            {
                let ghost before = strings_view(variables@);
                let ghost rest = tv.skip(i as int);
                assert(rest[0] == child@[i as int].spec_view());
                assert(rest.drop_first() =~= tv.skip(i + 1));
                proof {
                    assert(decreases_to!(*t => t->ItemPrimitive_1));
                    assert(decreases_to!(t->ItemPrimitive_1 => t->ItemPrimitive_1[i as int]));
                }
                put_variables(&child[i], variables);
                assert(strings_view(variables@) + trees_vars(tv.skip(i + 1)) =~= base + trees_vars(tv));
                i = i + 1;
            }
            assert(trees_vars(tv.skip(child@.len() as int)) =~= Seq::<Seq<char>>::empty()) by {
                assert(tv.skip(child@.len() as int) =~= Seq::<SpecTree>::empty());
            }
            assert(strings_view(variables@) =~= base + tree_vars(t.spec_view()));
        },
        _ => {
            assert(strings_view(variables@) =~= base + tree_vars(t.spec_view()));
        },
    }
}

/// The names of the variables of `t`, in pre-order.
pub fn tree_variables(t: &ExpressionAstTree) -> (r: Vec<String>)
    ensures
        strings_view(r@) == tree_vars(t.spec_view()),
{
    let mut variables: Vec<String> = Vec::new();
    assert(strings_view(variables@) =~= Seq::<Seq<char>>::empty());
    put_variables(t, &mut variables);
    assert(strings_view(variables@) =~= tree_vars(t.spec_view()));
    variables
}

impl ExpressionAST {
    /// The compiled expression of a tree, with the names of its variables in pre-order.
    pub fn from(ast: ExpressionAstTree) -> (r: Self)
        ensures
            r.ast.spec_view() == ast.spec_view(),
            strings_view(r.variables@) == tree_vars(ast.spec_view()),
    {
        let mut variables: Vec<String> = Vec::new();
        assert(strings_view(variables@) =~= Seq::<Seq<char>>::empty());
        put_variables(&ast, &mut variables);
        assert(strings_view(variables@) =~= tree_vars(ast.spec_view()));
        ExpressionAST { variables, ast }
    }
}

/// The text of a tree: a value quoted, a variable as `${name}`, a primitive as its name
/// and its arguments between brackets, joined with `,`.
pub open spec fn tree_text(t: SpecTree) -> Seq<char>
    decreases t, 1int,
{
    match t {
        SpecTree::Value(v) => seq!['\''] + value_text(v) + seq!['\''],
        SpecTree::Variable(n) => seq!['$', '{'] + n + seq!['}'],
        SpecTree::Primitive(n, ch) => n + seq!['('] + join(trees_texts(ch), seq![',']) + seq![')'],
    }
}

/// The texts of the trees `ch`.
pub open spec fn trees_texts(ch: Seq<SpecTree>) -> Seq<Seq<char>>
    decreases ch, 0int,
{
    Seq::new(
        ch.len(),
        |i: int|
            if 0 <= i < ch.len() {
                tree_text(ch[i])
            } else {
                Seq::empty()
            },
    )
}

/// The text of a part: a symbol as `` `s` `` between spaces, a value quoted, a variable as
/// `${a.b}`, a primitive as its name and its arguments between brackets, a group as its
/// parts between brackets, both joined with `, `.
pub open spec fn ir_text(x: SpecIR) -> Seq<char>
    decreases x, 1int,
{
    match x {
        SpecIR::Symbol(s) => seq![' ', '`'] + symbol_text(s) + seq!['`', ' '],
        SpecIR::Value(v) => seq!['\''] + value_text(v) + seq!['\''],
        SpecIR::Variable(vs) => seq!['$', '{'] + join(vs, seq!['.']) + seq!['}'],
        SpecIR::Primitive(n, ch) => n + seq!['('] + join(irs_texts(ch), seq![',', ' ']) + seq![')'],
        SpecIR::Group(ch) => seq!['('] + join(irs_texts(ch), seq![',', ' ']) + seq![')'],
    }
}

/// The texts of the parts `ch`.
pub open spec fn irs_texts(ch: Seq<SpecIR>) -> Seq<Seq<char>>
    decreases ch, 0int,
{
    Seq::new(
        ch.len(),
        |i: int|
            if 0 <= i < ch.len() {
                ir_text(ch[i])
            } else {
                Seq::empty()
            },
    )
}

proof fn lemma_output_literals()
    ensures
        "'"@ == seq!['\''],
        "${"@ == seq!['$', '{'],
        "}"@ == seq!['}'],
        "("@ == seq!['('],
        ")"@ == seq![')'],
        ","@ == seq![','],
        ", "@ == seq![',', ' '],
        " `"@ == seq![' ', '`'],
        "` "@ == seq!['`', ' '],
        "."@ == seq!['.'],
{
    reveal_strlit("'");
    reveal_strlit("${");
    reveal_strlit("}");
    reveal_strlit("(");
    reveal_strlit(")");
    reveal_strlit(",");
    reveal_strlit(", ");
    reveal_strlit(" `");
    reveal_strlit("` ");
    reveal_strlit(".");
    assert("'"@ =~= seq!['\'']);
    assert("${"@ =~= seq!['$', '{']);
    assert("}"@ =~= seq!['}']);
    assert("("@ =~= seq!['(']);
    assert(")"@ =~= seq![')']);
    assert(","@ =~= seq![',']);
    assert(", "@ =~= seq![',', ' ']);
    assert(" `"@ =~= seq![' ', '`']);
    assert("` "@ =~= seq!['`', ' ']);
    assert("."@ =~= seq!['.']);
}

/// Appends `a`, `b` and `c` in turn.
fn concat3(a: &str, b: &str, c: &str) -> (r: String)
    ensures
        r@ == a@ + b@ + c@,
{
    let mut s = String::from_str(a);
    s.append(b);
    s.append(c);
    s
}

impl ExpressionAstTree {
    /// The text of the tree (see [`tree_text`]).
    #[verifier::loop_isolation(false)]
    pub fn to_string(&self) -> (r: String)
        ensures
            r@ == tree_text(self.spec_view()),
        decreases self,
    {
        proof {
            lemma_output_literals();
        }
        match self {
            ExpressionAstTree::ItemValue(v) => {
                let t = v.to_string();
                concat3("'", t.as_str(), "'")
            },
            ExpressionAstTree::ItemVariable(n) => concat3("${", n.as_str(), "}"),
            ExpressionAstTree::ItemPrimitive(n, ch) => {
                let ghost tv = trees_view(ch@);
                let mut parts: Vec<String> = Vec::new();
                let mut i: usize = 0;
                while i < ch.len()
                    invariant
                        i <= ch@.len(),
                        parts@.len() == i,
                        forall|k: int| 0 <= k < i ==> #[trigger] parts@[k]@ == tree_text(ch@[k].spec_view()),
                    decreases ch@.len() - i,
                {
                    proof {
                        assert(decreases_to!(*self => self->ItemPrimitive_1));
                        assert(decreases_to!(self->ItemPrimitive_1 => self->ItemPrimitive_1[i as int]));
                    }
                    parts.push(ch[i].to_string());
                    i = i + 1;
                }
                assert(texts_view(parts@) =~= trees_texts(tv));
                let inner = join_texts(&parts, ",");
                let mut s = n.clone();
                s.append("(");
                s.append(inner.as_str());
                s.append(")");
                s
            },
        }
    }
}

impl ExpressionAST {
    /// The text of the tree of the expression.
    pub fn to_string(&self) -> (r: String)
        ensures
            r@ == tree_text(self.ast.spec_view()),
    {
        self.ast.to_string()
    }
}

impl ExpressionIR {
    /// The text of the part (see [`ir_text`]).
    #[verifier::loop_isolation(false)]
    pub fn to_string(&self) -> (r: String)
        ensures
            r@ == ir_text(self.spec_view()),
        decreases self,
    {
        proof {
            lemma_output_literals();
        }
        match self {
            ExpressionIR::ItemSymbol(sym) => {
                let t = sym.to_string();
                concat3(" `", t.as_str(), "` ")
            },
            ExpressionIR::ItemValue(v) => {
                let t = v.to_string();
                concat3("'", t.as_str(), "'")
            },
            ExpressionIR::ItemVariable(vs) => {
                let inner = join_texts(vs, ".");
                assert(texts_view(vs@) =~= strings_view(vs@));
                concat3("${", inner.as_str(), "}")
            },
            ExpressionIR::ItemPrimitive(_, ch) | ExpressionIR::ItemGroup(ch) => {
                let ghost cv = irs_view(ch@);
                let mut parts: Vec<String> = Vec::new();
                let mut i: usize = 0;
                while i < ch.len()
                    invariant
                        i <= ch@.len(),
                        parts@.len() == i,
                        forall|k: int| 0 <= k < i ==> #[trigger] parts@[k]@ == ir_text(ch@[k].spec_view()),
                    decreases ch@.len() - i,
                {
                    proof {
                        match self {
                            ExpressionIR::ItemPrimitive(_, _) => {
                                assert(decreases_to!(*self => self->ItemPrimitive_1));
                                assert(decreases_to!(self->ItemPrimitive_1 => self->ItemPrimitive_1[i as int]));
                            },
                            _ => {
                                assert(decreases_to!(*self => self->ItemGroup_0));
                                assert(decreases_to!(self->ItemGroup_0 => self->ItemGroup_0[i as int]));
                            },
                        }
                    }
                    parts.push(ch[i].to_string());
                    i = i + 1;
                }
                assert(texts_view(parts@) =~= irs_texts(cv));
                let inner = join_texts(&parts, ", ");
                let mut s = match self {
                    ExpressionIR::ItemPrimitive(n, _) => n.clone(),
                    _ => String::new(),
                };
                s.append("(");
                s.append(inner.as_str());
                s.append(")");
                s
            },
        }
    }
}

} // verus!
