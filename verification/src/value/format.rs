use vstd::prelude::*;
use vstd::string::*;

use crate::value::{SpecValue, TemplateValue};

verus! {

broadcast use vstd::string::group_string_axioms;

pub open spec fn digit_char(d: int) -> char {
    if d == 0 {
        '0'
    } else if d == 1 {
        '1'
    } else if d == 2 {
        '2'
    } else if d == 3 {
        '3'
    } else if d == 4 {
        '4'
    } else if d == 5 {
        '5'
    } else if d == 6 {
        '6'
    } else if d == 7 {
        '7'
    } else if d == 8 {
        '8'
    } else {
        '9'
    }
}

/// The decimal digits of `n`.
pub open spec fn nat_digits(n: nat) -> Seq<char>
    decreases n,
{
    if n < 10 {
        seq![digit_char(n as int)]
    } else {
        nat_digits(n / 10).push(digit_char((n % 10) as int))
    }
}

/// The decimal text of an integer, with a leading `-` when it is negative.
pub open spec fn int_text(n: int) -> Seq<char> {
    if n < 0 {
        seq!['-'] + nat_digits((-n) as nat)
    } else {
        nat_digits(n as nat)
    }
}

/// `parts` joined with `sep` between them.
pub open spec fn join(parts: Seq<Seq<char>>, sep: Seq<char>) -> Seq<char>
    decreases parts.len(),
{
    if parts.len() == 0 {
        Seq::empty()
    } else if parts.len() == 1 {
        parts[0]
    } else {
        join(parts.drop_last(), sep) + sep + parts.last()
    }
}

/// The text of a value: arrays as their elements joined with `,`, tables as their
/// `key=value` entries joined with `,`, the empty value as `None`.
pub open spec fn value_text(v: SpecValue) -> Seq<char>
    decreases v, 1int,
{
    match v {
        SpecValue::Float(f) => f,
        SpecValue::Number(n) => int_text(n),
        SpecValue::Text(t) => t,
        SpecValue::Bool(b) => if b {
            seq!['t', 'r', 'u', 'e']
        } else {
            seq!['f', 'a', 'l', 's', 'e']
        },
        SpecValue::Array(xs) => join(element_texts(xs), seq![',']),
        SpecValue::Table(xs) => join(entry_texts(xs), seq![',']),
        SpecValue::Null => seq!['N', 'o', 'n', 'e'],
    }
}

/// The texts of the elements of an array.
pub open spec fn element_texts(xs: Seq<SpecValue>) -> Seq<Seq<char>>
    decreases xs, 0int,
{
    Seq::new(
        xs.len(),
        |i: int|
            if 0 <= i < xs.len() {
                value_text(xs[i])
            } else {
                Seq::empty()
            },
    )
}

/// The `key=value` texts of the entries of a table.
pub open spec fn entry_texts(xs: Seq<(Seq<char>, SpecValue)>) -> Seq<Seq<char>>
    decreases xs, 0int,
{
    Seq::new(
        xs.len(),
        |i: int|
            if 0 <= i < xs.len() {
                xs[i].0 + seq!['='] + value_text(xs[i].1)
            } else {
                Seq::empty()
            },
    )
}

fn digit_str(d: u64) -> (r: &'static str)
    requires
        d < 10,
    ensures
        r@ == seq![digit_char(d as int)],
{
    if d == 0 {
        proof { reveal_strlit("0"); }
        "0"
    } else if d == 1 {
        proof { reveal_strlit("1"); }
        "1"
    } else if d == 2 {
        proof { reveal_strlit("2"); }
        "2"
    } else if d == 3 {
        proof { reveal_strlit("3"); }
        "3"
    } else if d == 4 {
        proof { reveal_strlit("4"); }
        "4"
    } else if d == 5 {
        proof { reveal_strlit("5"); }
        "5"
    } else if d == 6 {
        proof { reveal_strlit("6"); }
        "6"
    } else if d == 7 {
        proof { reveal_strlit("7"); }
        "7"
    } else if d == 8 {
        proof { reveal_strlit("8"); }
        "8"
    } else {
        proof { reveal_strlit("9"); }
        "9"
    }
}

/// The decimal digits of `n`.
pub fn nat_to_string(n: u64) -> (r: String)
    ensures
        r@ == nat_digits(n as nat),
    decreases n,
{
    if n < 10 {
        String::from_str(digit_str(n))
    } else {
        let mut s = nat_to_string(n / 10);
        s.append(digit_str(n % 10));
        s
    }
}

/// The decimal text of `n`.
pub fn int_to_string(n: i64) -> (r: String)
    ensures
        r@ == int_text(n as int),
{
    if n < 0 {
        let m: u64 = if n == i64::MIN {
            9223372036854775808u64
        } else {
            (-n) as u64
        };
        proof { reveal_strlit("-"); }
        let mut s = String::from_str("-");
        let d = nat_to_string(m);
        s.append(d.as_str());
        s
    } else {
        nat_to_string(n as u64)
    }
}

/// Appends `parts[i]` after `sep` (or first) to `s`.
fn join_step(s: &mut String, part: &str, first: bool)
    ensures
        final(s)@ == if first {
            old(s)@ + part@
        } else {
            old(s)@ + seq![','] + part@
        },
{
    if !first {
        proof { reveal_strlit(","); }
        s.append(",");
    }
    s.append(part);
}

impl TemplateValue {
    /// The text of the value (see [`value_text`]).
    #[verifier::loop_isolation(false)]
    pub fn to_string(&self) -> (r: String)
        ensures
            r@ == value_text(self.spec_view()),
        decreases self,
    {
        match self {
            TemplateValue::Float(f) => {
                let r = String::from_str(f.as_str());
                assert(r@ == value_text(self.spec_view()));
                r
            },
            TemplateValue::Number(n) => {
                let r = int_to_string(*n);
                assert(r@ == value_text(self.spec_view()));
                r
            },
            TemplateValue::Text(t) => {
                let r = String::from_str(t.as_str());
                assert(r@ == value_text(self.spec_view()));
                r
            },
            TemplateValue::Bool(b) => {
                if *b {
                    proof { reveal_strlit("true"); }
                    String::from_str("true")
                } else {
                    proof { reveal_strlit("false"); }
                    String::from_str("false")
                }
            },
            TemplateValue::Array(a) => {
                let ghost parts = Seq::new(
                    a@.len(),
                    |i: int|
                        if 0 <= i < a@.len() {
                            value_text(a@[i].spec_view())
                        } else {
                            Seq::empty()
                        },
                );
                let mut s = String::new();
                let mut i: usize = 0;
                assert(parts.take(0) =~= Seq::<Seq<char>>::empty());
                while i < a.len()
                    invariant
                        i <= a@.len(),
                        s@ == join(parts.take(i as int), seq![',']),
                    decreases a@.len() - i,
                {
                    proof {
                        assert(decreases_to!(*self => self->Array_0));
                        assert(decreases_to!(self->Array_0 => self->Array_0[i as int]));
                    }
                    let part = a[i].to_string();
                    assert(parts.take(i + 1).drop_last() =~= parts.take(i as int));
                    assert(parts.take(i + 1).last() == part@);
                    if i == 0 {
                        assert(parts.take(1) =~= seq![part@]);
                    }
                    join_step(&mut s, part.as_str(), i == 0);
                    assert(parts.take(i + 1).len() == i + 1);
                    i = i + 1;
                }
                assert(parts.take(a@.len() as int) =~= parts);
                proof {
                    let xs = self.spec_view()->Array_0;
                    assert(self.spec_view() == SpecValue::Array(xs));
                    assert(element_texts(xs) =~= parts);
                }
                s
            },
            TemplateValue::Table(t) => {
                let ghost parts = Seq::new(
                    t@.len(),
                    |i: int|
                        if 0 <= i < t@.len() {
                            t@[i].0@ + seq!['='] + value_text(t@[i].1.spec_view())
                        } else {
                            Seq::empty()
                        },
                );
                let mut s = String::new();
                let mut i: usize = 0;
                assert(parts.take(0) =~= Seq::<Seq<char>>::empty());
                while i < t.len()
                    invariant
                        i <= t@.len(),
                        s@ == join(parts.take(i as int), seq![',']),
                    decreases t@.len() - i,
                {
                    proof {
                        assert(decreases_to!(*self => self->Table_0));
                        assert(decreases_to!(self->Table_0 => self->Table_0[i as int]));
                        assert(decreases_to!(self->Table_0[i as int] => self->Table_0[i as int].1));
                    }
                    let vt = t[i].1.to_string();
                    let mut part = t[i].0.clone();
                    proof { reveal_strlit("="); }
                    part.append("=");
                    part.append(vt.as_str());
                    assert(parts.take(i + 1).drop_last() =~= parts.take(i as int));
                    assert(parts.take(i + 1).last() =~= part@);
                    if i == 0 {
                        assert(parts.take(1) =~= seq![part@]);
                    }
                    join_step(&mut s, part.as_str(), i == 0);
                    i = i + 1;
                }
                assert(parts.take(t@.len() as int) =~= parts);
                proof {
                    let xs = self.spec_view()->Table_0;
                    assert(self.spec_view() == SpecValue::Table(xs));
                    assert(entry_texts(xs) =~= parts);
                }
                s
            },
            TemplateValue::Null => {
                proof { reveal_strlit("None"); }
                String::from_str("None")
            },
        }
    }
}

} // verus!

verus! {

/// The texts of a list of strings.
pub open spec fn texts_view(v: Seq<String>) -> Seq<Seq<char>> {
    Seq::new(v.len(), |i: int| v[i]@)
}

/// `parts` joined with `sep` between them.
pub fn join_texts(parts: &Vec<String>, sep: &str) -> (r: String)
    ensures
        r@ == join(texts_view(parts@), sep@),
{
    let ghost pv = texts_view(parts@);
    let mut s = String::new();
    let mut i: usize = 0;
    assert(pv.take(0) =~= Seq::<Seq<char>>::empty());
    while i < parts.len()
        invariant
            i <= parts@.len(),
            pv == texts_view(parts@),
            s@ == join(pv.take(i as int), sep@),
        decreases parts@.len() - i,
    {
        assert(pv.take(i + 1).drop_last() =~= pv.take(i as int));
        assert(pv.take(i + 1).last() == parts@[i as int]@);
        if i == 0 {
            assert(pv.take(1) =~= seq![parts@[0]@]);
        } else {
            s.append(sep);
        }
        s.append(parts[i].as_str());
        i = i + 1;
    }
    assert(pv.take(parts@.len() as int) =~= pv);
    s
}

} // verus!
