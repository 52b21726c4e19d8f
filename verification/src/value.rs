use vstd::prelude::*;
use vstd::string::*;

pub mod document;
pub mod format;
pub mod parse;

verus! {

/// A value of the template engine; values are passed by value.
///
/// A floating-point number is held as the literal text it was written with (the engine
/// never computes with it); a table is a list of entries. The tables that the library
/// builds have distinct keys; a table with a repeated key equals no value.
#[derive(Debug)]
pub enum TemplateValue {
    Float(String),
    Number(i64),
    Text(String),
    Bool(bool),
    Array(Vec<TemplateValue>),
    Table(Vec<(String, TemplateValue)>),
    /// The empty value, only used in computations.
    Null,
}

/// The mathematical model of a [`TemplateValue`].
#[verifier::ext_equal]
pub enum SpecValue {
    Float(Seq<char>),
    Number(int),
    Text(Seq<char>),
    Bool(bool),
    Array(Seq<SpecValue>),
    Table(Seq<(Seq<char>, SpecValue)>),
    Null,
}

impl TemplateValue {
    pub open spec fn spec_view(&self) -> SpecValue
        decreases self,
    {
        match self {
            TemplateValue::Float(f) => SpecValue::Float(f@),
            TemplateValue::Number(n) => SpecValue::Number(*n as int),
            TemplateValue::Text(t) => SpecValue::Text(t@),
            TemplateValue::Bool(b) => SpecValue::Bool(*b),
            TemplateValue::Array(a) => SpecValue::Array(
                Seq::new(
                    a@.len(),
                    |i: int|
                        if 0 <= i < a.len() {
                            a[i].spec_view()
                        } else {
                            SpecValue::Null
                        },
                ),
            ),
            TemplateValue::Table(t) => SpecValue::Table(
                Seq::new(
                    t@.len(),
                    |i: int|
                        if 0 <= i < t.len() {
                            (t[i].0@, t[i].1.spec_view())
                        } else {
                            (Seq::empty(), SpecValue::Null)
                        },
                ),
            ),
            TemplateValue::Null => SpecValue::Null,
        }
    }
}

impl TemplateValue {
    /// A copy of the value, equal to it.
    #[verifier::loop_isolation(false)]
    pub fn deep_clone(&self) -> (r: TemplateValue)
        ensures
            r.spec_view() == self.spec_view(),
        decreases self,
    {
        match self {
            TemplateValue::Float(f) => TemplateValue::Float(f.clone()),
            TemplateValue::Number(n) => TemplateValue::Number(*n),
            TemplateValue::Text(t) => TemplateValue::Text(t.clone()),
            TemplateValue::Bool(b) => TemplateValue::Bool(*b),
            TemplateValue::Array(a) => {
                let mut out: Vec<TemplateValue> = Vec::new();
                let mut i: usize = 0;
                while i < a.len()
                    invariant
                        i <= a@.len(),
                        out@.len() == i,
                        forall|k: int| 0 <= k < i ==> #[trigger] out@[k].spec_view() == a@[k].spec_view(),
                    decreases a@.len() - i,
                {
                    proof {
                        assert(decreases_to!(*self => self->Array_0));
                        assert(decreases_to!(self->Array_0 => self->Array_0[i as int]));
                    }
                    let v = a[i].deep_clone();
                    out.push(v);
                    i = i + 1;
                }
                let r = TemplateValue::Array(out);
                assert forall|k: int| 0 <= k < a@.len() implies #[trigger] r.spec_view()->Array_0[k] == self.spec_view()->Array_0[k] by {
                    assert(out@[k].spec_view() == a@[k].spec_view());
                }
                assert(r.spec_view()->Array_0 =~= self.spec_view()->Array_0);
                r
            },
            TemplateValue::Table(t) => {
                let mut out: Vec<(String, TemplateValue)> = Vec::new();
                let mut i: usize = 0;
                while i < t.len()
                    invariant
                        i <= t@.len(),
                        out@.len() == i,
                        forall|k: int| 0 <= k < i ==> #[trigger] out@[k].1.spec_view() == t@[k].1.spec_view() && out@[k].0@ == t@[k].0@,
                    decreases t@.len() - i,
                {
                    let k = t[i].0.clone();
                    proof {
                        assert(decreases_to!(*self => self->Table_0));
                        assert(decreases_to!(self->Table_0 => self->Table_0[i as int]));
                        assert(decreases_to!(self->Table_0[i as int] => self->Table_0[i as int].1));
                    }
                    let v = t[i].1.deep_clone();
                    out.push((k, v));
                    i = i + 1;
                }
                let r = TemplateValue::Table(out);
                assert forall|k: int| 0 <= k < t@.len() implies #[trigger] r.spec_view()->Table_0[k] == self.spec_view()->Table_0[k] by {
                    assert(out@[k].1.spec_view() == t@[k].1.spec_view());
                }
                assert(r.spec_view()->Table_0 =~= self.spec_view()->Table_0);
                r
            },
            TemplateValue::Null => TemplateValue::Null,
        }
    }
}

impl Clone for TemplateValue {
    fn clone(&self) -> (r: Self)
        ensures
            r.spec_view() == self.spec_view(),
    {
        self.deep_clone()
    }
}


/// The keys of the entries of a table are distinct.
pub open spec fn keys_unique(t: Seq<(Seq<char>, SpecValue)>) -> bool {
    forall|i: int, j: int| 0 <= i < j < t.len() ==> #[trigger] t[i].0 != #[trigger] t[j].0
}

/// Equality of values: a float equals nothing (not even itself); arrays are equal
/// element by element; tables are equal when both have distinct keys, as many entries,
/// and each entry of the first has an equal value under the same key in the second (so
/// both have the same keys). A table with a repeated key equals nothing.
pub open spec fn value_eq(a: SpecValue, b: SpecValue) -> bool
    decreases a, 0int,
{
    match a {
        SpecValue::Float(_) => false,
        SpecValue::Number(x) => b matches SpecValue::Number(y) && x == y,
        SpecValue::Text(x) => b matches SpecValue::Text(y) && x == y,
        SpecValue::Bool(x) => b matches SpecValue::Bool(y) && x == y,
        SpecValue::Array(xs) => b matches SpecValue::Array(ys) && xs.len() == ys.len() && values_eq(
            xs,
            ys,
            xs.len() as int,
        ),
        SpecValue::Table(xs) => b matches SpecValue::Table(ys) && xs.len() == ys.len() && keys_unique(xs)
            && keys_unique(ys) && entries_in(xs, ys, xs.len() as int),
        SpecValue::Null => b is Null,
    }
}

/// The first `n` elements of `xs` and `ys` are pairwise equal.
pub open spec fn values_eq(xs: Seq<SpecValue>, ys: Seq<SpecValue>, n: int) -> bool
    decreases xs, n,
{
    if n <= 0 || n > xs.len() || n > ys.len() {
        n <= 0
    } else {
        values_eq(xs, ys, n - 1) && value_eq(xs[n - 1], ys[n - 1])
    }
}

/// The value of the first entry of `t` with key `k`.
pub open spec fn lookup(t: Seq<(Seq<char>, SpecValue)>, k: Seq<char>) -> Option<SpecValue>
    decreases t.len(),
{
    if t.len() == 0 {
        None
    } else if t[0].0 == k {
        Some(t[0].1)
    } else {
        lookup(t.drop_first(), k)
    }
}

/// Each of the first `n` entries of `xs` has an equal value under its key in `ys`.
pub open spec fn entries_in(xs: Seq<(Seq<char>, SpecValue)>, ys: Seq<(Seq<char>, SpecValue)>, n: int) -> bool
    decreases xs, n,
{
    if n <= 0 || n > xs.len() {
        n <= 0
    } else {
        entries_in(xs, ys, n - 1) && match lookup(ys, xs[n - 1].0) {
            Some(w) => value_eq(xs[n - 1].1, w),
            None => false,
        }
    }
}

proof fn lemma_values_eq_prefix(xs: Seq<SpecValue>, ys: Seq<SpecValue>, m: int, n: int)
    requires
        0 <= m <= n,
        values_eq(xs, ys, n),
    ensures
        values_eq(xs, ys, m),
    decreases n - m,
{
    if m < n {
        lemma_values_eq_prefix(xs, ys, m, n - 1);
    }
}

proof fn lemma_entries_in_prefix(xs: Seq<(Seq<char>, SpecValue)>, ys: Seq<(Seq<char>, SpecValue)>, m: int, n: int)
    requires
        0 <= m <= n,
        entries_in(xs, ys, n),
    ensures
        entries_in(xs, ys, m),
    decreases n - m,
{
    if m < n {
        lemma_entries_in_prefix(xs, ys, m, n - 1);
    }
}

pub open spec fn table_view(t: Seq<(String, TemplateValue)>) -> Seq<(Seq<char>, SpecValue)> {
    Seq::new(t.len(), |i: int| (t[i].0@, t[i].1.spec_view()))
}

fn lookup_exec<'a>(t: &'a Vec<(String, TemplateValue)>, k: &String) -> (r: Option<&'a TemplateValue>)
    ensures
        match r {
            Some(v) => lookup(table_view(t@), k@) == Some(v.spec_view()),
            None => lookup(table_view(t@), k@) is None,
        },
{
    let ghost tv = table_view(t@);
    let mut i: usize = 0;
    assert(tv.skip(0) =~= tv);
    while i < t.len()
        invariant
            i <= t@.len(),
            tv == table_view(t@),
            lookup(tv, k@) == lookup(tv.skip(i as int), k@),
        decreases t@.len() - i,
    {
        let ghost rest = tv.skip(i as int);
        assert(rest[0] == tv[i as int]);
        assert(rest.drop_first() =~= tv.skip(i + 1));
        if t[i].0 == *k {
            return Some(&t[i].1);
        }
        i = i + 1;
    }
    None
}

/// Whether the keys of the table are distinct (see [`keys_unique`]).
fn keys_unique_exec(t: &Vec<(String, TemplateValue)>) -> (r: bool)
    ensures
        r == keys_unique(table_view(t@)),
{
    let ghost tv = table_view(t@);
    let mut j: usize = 0;
    while j < t.len()
        invariant
            j <= t@.len(),
            tv == table_view(t@),
            forall|a: int, b: int| 0 <= a < b < j ==> #[trigger] tv[a].0 != #[trigger] tv[b].0,
        decreases t@.len() - j,
    {
        let mut i: usize = 0;
        while i < j
            invariant
                i <= j < t@.len(),
                tv == table_view(t@),
                forall|a: int, b: int| 0 <= a < b < j ==> #[trigger] tv[a].0 != #[trigger] tv[b].0,
                forall|a: int| 0 <= a < i ==> #[trigger] tv[a].0 != tv[j as int].0,
            decreases j - i,
        {
            if t[i].0 == t[j].0 {
                assert(tv[i as int].0 == tv[j as int].0);
                return false;
            }
            i = i + 1;
        }
        j = j + 1;
    }
    true
}

/// Whether two values are equal, by [`value_eq`].
#[verifier::loop_isolation(false)]
pub fn value_eq_exec(a: &TemplateValue, b: &TemplateValue) -> (r: bool)
    ensures
        r == value_eq(a.spec_view(), b.spec_view()),
    decreases a,
{
    match (a, b) {
        (TemplateValue::Float(_), _) => false,
        (TemplateValue::Number(x), TemplateValue::Number(y)) => *x == *y,
        (TemplateValue::Text(x), TemplateValue::Text(y)) => *x == *y,
        (TemplateValue::Bool(x), TemplateValue::Bool(y)) => *x == *y,
        (TemplateValue::Array(xs), TemplateValue::Array(ys)) => {
            if xs.len() != ys.len() {
                return false;
            }
            let ghost xv = a.spec_view()->Array_0;
            let ghost yv = b.spec_view()->Array_0;
            let mut i: usize = 0;
            while i < xs.len()
                invariant
                    i <= xs@.len(),
                    values_eq(xv, yv, i as int),
                decreases xs@.len() - i,
            {
                proof {
                    assert(decreases_to!(*a => a->Array_0));
                    assert(decreases_to!(a->Array_0 => a->Array_0[i as int]));
                }
                if !value_eq_exec(&xs[i], &ys[i]) {
                    proof {
                        if values_eq(xv, yv, xv.len() as int) {
                            lemma_values_eq_prefix(xv, yv, i + 1, xv.len() as int);
                        }
                    }
                    return false;
                }
                i = i + 1;
            }
            true
        },
        (TemplateValue::Table(xs), TemplateValue::Table(ys)) => {
            if xs.len() != ys.len() {
                return false;
            }
            assert(a.spec_view()->Table_0 =~= table_view(xs@));
            assert(b.spec_view()->Table_0 =~= table_view(ys@));
            if !keys_unique_exec(xs) || !keys_unique_exec(ys) {
                return false;
            }
            let ghost xv = a.spec_view()->Table_0;
            let ghost yv = b.spec_view()->Table_0;
            assert(yv =~= table_view(ys@));
            let mut i: usize = 0;
            while i < xs.len()
                invariant
                    i <= xs@.len(),
                    entries_in(xv, yv, i as int),
                decreases xs@.len() - i,
            {
                proof {
                    assert(decreases_to!(*a => a->Table_0));
                    assert(decreases_to!(a->Table_0 => a->Table_0[i as int]));
                    assert(decreases_to!(a->Table_0[i as int] => a->Table_0[i as int].1));
                }
                match lookup_exec(ys, &xs[i].0) {
                    Some(w) => {
                        if !value_eq_exec(&xs[i].1, w) {
                            proof {
                                if entries_in(xv, yv, xv.len() as int) {
                                    lemma_entries_in_prefix(xv, yv, i + 1, xv.len() as int);
                                }
                            }
                            return false;
                        }
                    },
                    None => {
                        proof {
                            if entries_in(xv, yv, xv.len() as int) {
                                lemma_entries_in_prefix(xv, yv, i + 1, xv.len() as int);
                            }
                        }
                        return false;
                    },
                }
                i = i + 1;
            }
            true
        },
        (TemplateValue::Null, TemplateValue::Null) => true,
        _ => false,
    }
}

impl PartialEq for TemplateValue {
    fn eq(&self, other: &Self) -> (r: bool) {
        value_eq_exec(self, other)
    }
}

impl vstd::std_specs::cmp::PartialEqSpecImpl for TemplateValue {
    open spec fn obeys_eq_spec() -> bool {
        true
    }

    open spec fn eq_spec(&self, other: &Self) -> bool {
        value_eq(self.spec_view(), other.spec_view())
    }
}

} // verus!

verus! {

/// A value holds no float, at any depth.
pub open spec fn float_free(v: SpecValue) -> bool
    decreases v,
{
    match v {
        SpecValue::Float(_) => false,
        SpecValue::Array(xs) => forall|i: int| 0 <= i < xs.len() ==> float_free(#[trigger] xs[i]),
        SpecValue::Table(xs) => forall|i: int| 0 <= i < xs.len() ==> float_free(#[trigger] xs[i].1),
        _ => true,
    }
}

/// The keys of every table of a value, at any depth, are distinct.
pub open spec fn keys_distinct(v: SpecValue) -> bool
    decreases v,
{
    match v {
        SpecValue::Array(xs) => forall|i: int| 0 <= i < xs.len() ==> keys_distinct(#[trigger] xs[i]),
        SpecValue::Table(xs) => keys_unique(xs) && forall|i: int| 0 <= i < xs.len() ==> keys_distinct(#[trigger] xs[i].1),
        _ => true,
    }
}

proof fn lemma_lookup_distinct(t: Seq<(Seq<char>, SpecValue)>, k: int)
    requires
        0 <= k < t.len(),
        forall|i: int, j: int| 0 <= i < j < t.len() ==> #[trigger] t[i].0 != #[trigger] t[j].0,
    ensures
        lookup(t, t[k].0) == Some(t[k].1),
    decreases t.len(),
{
    if k > 0 {
        let u = t.drop_first();
        assert(t[0].0 != t[k].0);
        assert(u[k - 1] == t[k]);
        assert forall|i: int, j: int| 0 <= i < j < u.len() implies #[trigger] u[i].0 != #[trigger] u[j].0 by {
            assert(u[i] == t[i + 1] && u[j] == t[j + 1]);
        }
        lemma_lookup_distinct(u, k - 1);
    }
}

/// A value without floats, whose tables have distinct keys, equals itself (a float
/// equals nothing, and a table with a repeated key may differ from itself).
pub proof fn lemma_value_eq_reflexive(v: SpecValue)
    requires
        float_free(v),
        keys_distinct(v),
    ensures
        value_eq(v, v),
    decreases v,
{
    match v {
        SpecValue::Array(xs) => {
            lemma_values_eq_refl_prefix(xs, xs.len() as int);
        },
        SpecValue::Table(xs) => {
            lemma_entries_refl_prefix(xs, xs.len() as int);
        },
        _ => {},
    }
}

proof fn lemma_values_eq_refl_prefix(xs: Seq<SpecValue>, n: int)
    requires
        0 <= n <= xs.len(),
        forall|i: int| 0 <= i < xs.len() ==> float_free(#[trigger] xs[i]),
        forall|i: int| 0 <= i < xs.len() ==> keys_distinct(#[trigger] xs[i]),
    ensures
        values_eq(xs, xs, n),
    decreases xs, n,
{
    if n > 0 {
        lemma_values_eq_refl_prefix(xs, n - 1);
        assert(float_free(xs[n - 1]) && keys_distinct(xs[n - 1]));
        lemma_value_eq_reflexive(xs[n - 1]);
    }
}

proof fn lemma_entries_refl_prefix(xs: Seq<(Seq<char>, SpecValue)>, n: int)
    requires
        0 <= n <= xs.len(),
        forall|i: int| 0 <= i < xs.len() ==> float_free(#[trigger] xs[i].1),
        forall|i: int| 0 <= i < xs.len() ==> keys_distinct(#[trigger] xs[i].1),
        forall|i: int, j: int| 0 <= i < j < xs.len() ==> #[trigger] xs[i].0 != #[trigger] xs[j].0,
    ensures
        entries_in(xs, xs, n),
    decreases xs, n,
{
    if n > 0 {
        lemma_entries_refl_prefix(xs, n - 1);
        lemma_lookup_distinct(xs, n - 1);
        assert(float_free(xs[n - 1].1) && keys_distinct(xs[n - 1].1));
        lemma_value_eq_reflexive(xs[n - 1].1);
    }
}

proof fn lemma_values_eq_at(xs: Seq<SpecValue>, ys: Seq<SpecValue>, n: int, j: int)
    requires
        values_eq(xs, ys, n),
        0 <= j < n,
    ensures
        value_eq(xs[j], ys[j]),
    decreases n,
{
    if j < n - 1 {
        lemma_values_eq_at(xs, ys, n - 1, j);
    }
}

proof fn lemma_values_eq_from(xs: Seq<SpecValue>, ys: Seq<SpecValue>, n: int)
    requires
        0 <= n <= xs.len(),
        n <= ys.len(),
        forall|j: int| 0 <= j < n ==> value_eq(#[trigger] xs[j], ys[j]),
    ensures
        values_eq(xs, ys, n),
    decreases n,
{
    if n > 0 {
        lemma_values_eq_from(xs, ys, n - 1);
    }
}

proof fn lemma_entries_in_at(xs: Seq<(Seq<char>, SpecValue)>, ys: Seq<(Seq<char>, SpecValue)>, n: int, j: int)
    requires
        entries_in(xs, ys, n),
        0 <= j < n,
    ensures
        lookup(ys, xs[j].0) matches Some(w) && value_eq(xs[j].1, w),
    decreases n,
{
    if j < n - 1 {
        lemma_entries_in_at(xs, ys, n - 1, j);
    }
}

proof fn lemma_entries_in_from(xs: Seq<(Seq<char>, SpecValue)>, ys: Seq<(Seq<char>, SpecValue)>, n: int)
    requires
        0 <= n <= xs.len(),
        forall|j: int| 0 <= j < n ==> (lookup(ys, #[trigger] xs[j].0) matches Some(w) && value_eq(xs[j].1, w)),
    ensures
        entries_in(xs, ys, n),
    decreases n,
{
    if n > 0 {
        lemma_entries_in_from(xs, ys, n - 1);
        assert(lookup(ys, xs[n - 1].0) matches Some(w) && value_eq(xs[n - 1].1, w));
    }
}

/// An entry found by `lookup` is an entry of the table.
proof fn lemma_lookup_some(t: Seq<(Seq<char>, SpecValue)>, k: Seq<char>) -> (j: int)
    requires
        lookup(t, k) is Some,
    ensures
        0 <= j < t.len(),
        t[j].0 == k,
        Some(t[j].1) == lookup(t, k),
    decreases t.len(),
{
    if t[0].0 == k {
        0
    } else {
        let i = lemma_lookup_some(t.drop_first(), k);
        assert(t.drop_first()[i] == t[i + 1]);
        i + 1
    }
}

/// Two tables with distinct keys, as many entries, and every key of the first found in the
/// second, have the same keys.
proof fn lemma_keys_cover(xs: Seq<(Seq<char>, SpecValue)>, ys: Seq<(Seq<char>, SpecValue)>)
    requires
        xs.len() == ys.len(),
        keys_unique(xs),
        keys_unique(ys),
        forall|i: int| 0 <= i < xs.len() ==> #[trigger] lookup(ys, xs[i].0) is Some,
    ensures
        forall|j: int| 0 <= j < ys.len() ==> exists|i: int| 0 <= i < xs.len() && #[trigger] xs[i].0 == #[trigger] ys[j].0,
{
    let kx = Seq::new(xs.len(), |i: int| xs[i].0);
    let ky = Seq::new(ys.len(), |i: int| ys[i].0);
    assert(kx.no_duplicates()) by {
        assert forall|i: int, j: int| 0 <= i < kx.len() && 0 <= j < kx.len() && i != j implies kx[i] != kx[j] by {
            if i < j {
                assert(xs[i].0 != xs[j].0);
            } else {
                assert(xs[j].0 != xs[i].0);
            }
        }
    }
    assert(ky.no_duplicates()) by {
        assert forall|i: int, j: int| 0 <= i < ky.len() && 0 <= j < ky.len() && i != j implies ky[i] != ky[j] by {
            if i < j {
                assert(ys[i].0 != ys[j].0);
            } else {
                assert(ys[j].0 != ys[i].0);
            }
        }
    }
    kx.unique_seq_to_set();
    ky.unique_seq_to_set();
    assert(kx.to_set().subset_of(ky.to_set())) by {
        assert forall|k: Seq<char>| kx.to_set().contains(k) implies ky.to_set().contains(k) by {
            assert(kx.contains(k));
            let i = choose|i: int| 0 <= i < kx.len() && kx[i] == k;
            assert(lookup(ys, xs[i].0) is Some);
            let j = lemma_lookup_some(ys, k);
            assert(ky[j] == k);
            assert(ky.contains(k));
        }
    }
    vstd::set_lib::lemma_subset_equality(kx.to_set(), ky.to_set());
    assert forall|j: int| 0 <= j < ys.len() implies exists|i: int| 0 <= i < xs.len() && #[trigger] xs[i].0 == #[trigger] ys[j].0 by {
        assert(ky[j] == ys[j].0);
        assert(ky.contains(ys[j].0));
        assert(ky.to_set().contains(ys[j].0));
        assert(kx.to_set().contains(ys[j].0));
        assert(kx.contains(ys[j].0));
        let i = choose|i: int| 0 <= i < kx.len() && kx[i] == ys[j].0;
        assert(xs[i].0 == ys[j].0);
    }
}

/// Equality of values is symmetric.
pub proof fn lemma_value_eq_symmetric(a: SpecValue, b: SpecValue)
    requires
        value_eq(a, b),
    ensures
        value_eq(b, a),
    decreases a,
{
    match a {
        SpecValue::Array(xs) => {
            let ys = b->Array_0;
            let n = xs.len() as int;
            assert forall|j: int| 0 <= j < n implies value_eq(#[trigger] ys[j], xs[j]) by {
                lemma_values_eq_at(xs, ys, n, j);
                lemma_value_eq_symmetric(xs[j], ys[j]);
            }
            lemma_values_eq_from(ys, xs, n);
        },
        SpecValue::Table(xs) => {
            let ys = b->Table_0;
            let n = xs.len() as int;
            assert forall|i: int| 0 <= i < xs.len() implies #[trigger] lookup(ys, xs[i].0) is Some by {
                lemma_entries_in_at(xs, ys, n, i);
            }
            lemma_keys_cover(xs, ys);
            assert forall|j: int| 0 <= j < n implies (lookup(xs, #[trigger] ys[j].0) matches Some(w) && value_eq(ys[j].1, w)) by {
                assert(exists|i: int| 0 <= i < xs.len() && #[trigger] xs[i].0 == ys[j].0);
                let i = choose|i: int| 0 <= i < xs.len() && #[trigger] xs[i].0 == ys[j].0;
                lemma_lookup_distinct(xs, i);
                lemma_lookup_distinct(ys, j);
                lemma_entries_in_at(xs, ys, n, i);
                lemma_value_eq_symmetric(xs[i].1, ys[j].1);
            }
            lemma_entries_in_from(ys, xs, n);
        },
        _ => {},
    }
}

/// Equality of values is transitive.
pub proof fn lemma_value_eq_transitive(a: SpecValue, b: SpecValue, c: SpecValue)
    requires
        value_eq(a, b),
        value_eq(b, c),
    ensures
        value_eq(a, c),
    decreases a,
{
    match a {
        SpecValue::Array(xs) => {
            let ys = b->Array_0;
            let zs = c->Array_0;
            let n = xs.len() as int;
            assert forall|j: int| 0 <= j < n implies value_eq(#[trigger] xs[j], zs[j]) by {
                lemma_values_eq_at(xs, ys, n, j);
                lemma_values_eq_at(ys, zs, n, j);
                lemma_value_eq_transitive(xs[j], ys[j], zs[j]);
            }
            lemma_values_eq_from(xs, zs, n);
        },
        SpecValue::Table(xs) => {
            let ys = b->Table_0;
            let zs = c->Table_0;
            let n = xs.len() as int;
            assert forall|i: int| 0 <= i < n implies (lookup(zs, #[trigger] xs[i].0) matches Some(u) && value_eq(xs[i].1, u)) by {
                lemma_entries_in_at(xs, ys, n, i);
                let j = lemma_lookup_some(ys, xs[i].0);
                lemma_entries_in_at(ys, zs, n, j);
                lemma_value_eq_transitive(xs[i].1, ys[j].1, lookup(zs, xs[i].0)->0);
            }
            lemma_entries_in_from(xs, zs, n);
        },
        _ => {},
    }
}

impl TemplateValue {
    /// The tables of the value, at any depth, have distinct keys (as every value the
    /// library reads has).
    pub open spec fn well_formed(&self) -> bool {
        keys_distinct(self.spec_view())
    }
}

/// A well-formed value equals itself exactly when it holds no float, at any depth.
pub proof fn lemma_value_eq_self_well_formed(v: TemplateValue)
    requires
        v.well_formed(),
    ensures
        value_eq(v.spec_view(), v.spec_view()) <==> float_free(v.spec_view()),
{
    lemma_value_eq_self(v.spec_view());
}

/// A value equals itself exactly when it holds no float and no table with a repeated key,
/// at any depth.
pub proof fn lemma_value_eq_self(v: SpecValue)
    ensures
        value_eq(v, v) <==> (float_free(v) && keys_distinct(v)),
    decreases v,
{
    if float_free(v) && keys_distinct(v) {
        lemma_value_eq_reflexive(v);
    }
    if value_eq(v, v) {
        match v {
            SpecValue::Array(xs) => {
                let n = xs.len() as int;
                assert forall|j: int| 0 <= j < n implies float_free(#[trigger] xs[j]) && keys_distinct(xs[j]) by {
                    lemma_values_eq_at(xs, xs, n, j);
                    lemma_value_eq_self(xs[j]);
                }
            },
            SpecValue::Table(xs) => {
                let n = xs.len() as int;
                assert forall|j: int| 0 <= j < n implies float_free(#[trigger] xs[j].1) && keys_distinct(xs[j].1) by {
                    lemma_entries_in_at(xs, xs, n, j);
                    lemma_lookup_distinct(xs, j);
                    lemma_value_eq_self(xs[j].1);
                }
            },
            _ => {},
        }
    }
}

/// Equal values are of the same kind: a number, text, boolean or empty value equals only
/// itself (and a float nothing); equal arrays have as many elements, pairwise equal;
/// equal tables have distinct keys, as many entries, and each entry of the first is an
/// entry of the second with the same key and an equal value.
pub proof fn lemma_value_eq_separates(a: SpecValue, b: SpecValue)
    requires
        value_eq(a, b),
    ensures
        !(a is Float),
        !(a is Array) && !(a is Table) ==> a == b,
        a matches SpecValue::Array(xs) ==> (b matches SpecValue::Array(ys) && xs.len() == ys.len()
            && forall|i: int| 0 <= i < xs.len() ==> value_eq(#[trigger] xs[i], ys[i])),
        a matches SpecValue::Table(xs) ==> (b matches SpecValue::Table(ys) && xs.len() == ys.len() && keys_unique(xs)
            && keys_unique(ys) && forall|i: int|
            0 <= i < xs.len() ==> exists|j: int| 0 <= j < ys.len() && #[trigger] ys[j].0 == #[trigger] xs[i].0 && value_eq(xs[i].1, ys[j].1)),
{
    match a {
        SpecValue::Array(xs) => {
            let ys = b->Array_0;
            assert forall|i: int| 0 <= i < xs.len() implies value_eq(#[trigger] xs[i], ys[i]) by {
                lemma_values_eq_at(xs, ys, xs.len() as int, i);
            }
        },
        SpecValue::Table(xs) => {
            let ys = b->Table_0;
            assert forall|i: int| 0 <= i < xs.len() implies exists|j: int| 0 <= j < ys.len() && #[trigger] ys[j].0 == #[trigger] xs[i].0 && value_eq(xs[i].1, ys[j].1) by {
                lemma_entries_in_at(xs, ys, xs.len() as int, i);
                let j = lemma_lookup_some(ys, xs[i].0);
                assert(ys[j].0 == xs[i].0 && value_eq(xs[i].1, ys[j].1));
            }
        },
        _ => {},
    }
}

} // verus!
