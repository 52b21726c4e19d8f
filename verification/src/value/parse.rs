use vstd::prelude::*;
use vstd::string::*;

use crate::utils::chars::chars_of;
use crate::value::format::{digit_char, nat_digits};
use crate::value::{SpecValue, TemplateValue};

verus! {

pub open spec fn is_digit(c: char) -> bool {
    '0' <= c <= '9'
}

pub open spec fn all_digits(s: Seq<char>) -> bool {
    forall|i: int| 0 <= i < s.len() ==> #[trigger] is_digit(s[i])
}

/// The number written by the decimal digits `s`.
pub open spec fn digits_value(s: Seq<char>) -> int
    decreases s.len(),
{
    if s.len() == 0 {
        0
    } else {
        digits_value(s.drop_last()) * 10 + (s.last() as int - '0' as int)
    }
}

/// `s` without a leading `+` or `-`, and whether that sign was `-`.
pub open spec fn strip_sign(s: Seq<char>) -> (bool, Seq<char>) {
    if s.len() > 0 && s[0] == '-' {
        (true, s.drop_first())
    } else if s.len() > 0 && s[0] == '+' {
        (false, s.drop_first())
    } else {
        (false, s)
    }
}

/// `bool::from_str`: exactly `true` or `false`.
pub open spec fn spec_parse_bool(s: Seq<char>) -> Option<bool> {
    if s == seq!['t', 'r', 'u', 'e'] {
        Some(true)
    } else if s == seq!['f', 'a', 'l', 's', 'e'] {
        Some(false)
    } else {
        None
    }
}

/// `i64::from_str`: an optional sign followed by one or more decimal digits, whose value
/// fits in an `i64`.
pub open spec fn spec_parse_i64(s: Seq<char>) -> Option<int> {
    let (neg, body) = strip_sign(s);
    if body.len() == 0 || !all_digits(body) {
        None
    } else {
        let v = if neg {
            -digits_value(body)
        } else {
            digits_value(body)
        };
        if i64::MIN <= v <= i64::MAX {
            Some(v)
        } else {
            None
        }
    }
}

/// The ASCII lower case of `c`.
pub open spec fn to_lower(c: char) -> char {
    if 'A' <= c <= 'Z' {
        ((c as u32) + 32) as char
    } else {
        c
    }
}

/// `s` equals the lower-case word `w` when lower-cased.
pub open spec fn eq_ignore_case(s: Seq<char>, w: Seq<char>) -> bool {
    s.len() == w.len() && forall|i: int| 0 <= i < s.len() ==> #[trigger] to_lower(s[i]) == w[i]
}

/// One or more digits with at most one `.` among them.
pub open spec fn is_mantissa(m: Seq<char>) -> bool {
    &&& forall|i: int| 0 <= i < m.len() ==> is_digit(#[trigger] m[i]) || m[i] == '.'
    &&& forall|i: int, j: int| 0 <= i < j < m.len() ==> !(#[trigger] m[i] == '.' && #[trigger] m[j] == '.')
    &&& exists|i: int| 0 <= i < m.len() && is_digit(#[trigger] m[i])
}

/// `e` or `E`, an optional sign, and one or more digits.
pub open spec fn is_exponent(x: Seq<char>) -> bool {
    x.len() >= 2 && (x[0] == 'e' || x[0] == 'E') && {
        let d = if x[1] == '+' || x[1] == '-' {
            x.skip(2)
        } else {
            x.skip(1)
        };
        d.len() > 0 && all_digits(d)
    }
}

/// Index of the first `e` or `E` in `s` from `i`.
pub open spec fn exponent_index(s: Seq<char>, i: int) -> Option<int>
    decreases s.len() - i,
{
    if i < 0 || i >= s.len() {
        None
    } else if s[i] == 'e' || s[i] == 'E' {
        Some(i)
    } else {
        exponent_index(s, i + 1)
    }
}

/// A decimal number: a mantissa, then an optional exponent.
pub open spec fn is_number(b: Seq<char>) -> bool {
    match exponent_index(b, 0) {
        None => is_mantissa(b),
        Some(e) => is_mantissa(b.take(e)) && is_exponent(b.skip(e)),
    }
}

/// The grammar that `f64::from_str` accepts: an optional sign, then `inf`, `infinity`,
/// `nan` (in any case) or a decimal number.
pub open spec fn spec_is_float_literal(s: Seq<char>) -> bool {
    let body = strip_sign(s).1;
    eq_ignore_case(body, seq!['i', 'n', 'f']) || eq_ignore_case(
        body,
        seq!['i', 'n', 'f', 'i', 'n', 'i', 't', 'y'],
    ) || eq_ignore_case(body, seq!['n', 'a', 'n']) || is_number(body)
}

/// The value that a text stands for: a boolean, else an integer, else a floating-point
/// number, else the text itself.
pub open spec fn spec_value_from(s: Seq<char>) -> SpecValue {
    match spec_parse_bool(s) {
        Some(b) => SpecValue::Bool(b),
        None => match spec_parse_i64(s) {
            Some(n) => SpecValue::Number(n),
            None => if spec_is_float_literal(s) {
                SpecValue::Float(s)
            } else {
                SpecValue::Text(s)
            },
        },
    }
}

proof fn lemma_digits_value_nonneg(s: Seq<char>)
    requires
        all_digits(s),
    ensures
        digits_value(s) >= 0,
    decreases s.len(),
{
    if s.len() > 0 {
        assert(all_digits(s.drop_last())) by {
            assert forall|i: int| 0 <= i < s.drop_last().len() implies #[trigger] is_digit(s.drop_last()[i]) by {
                assert(is_digit(s[i]));
            }
        }
        lemma_digits_value_nonneg(s.drop_last());
        assert(is_digit(s[s.len() - 1]));
    }
}

/// Digits only grow as more digits follow.
proof fn lemma_digits_value_prefix(s: Seq<char>, k: int)
    requires
        all_digits(s),
        0 <= k <= s.len(),
    ensures
        digits_value(s.take(k)) <= digits_value(s),
    decreases s.len() - k,
{
    if k < s.len() {
        let t = s.take(k + 1);
        assert(t.drop_last() =~= s.take(k));
        assert(all_digits(t)) by {
            assert forall|i: int| 0 <= i < t.len() implies #[trigger] is_digit(t[i]) by {
                assert(is_digit(s[i]));
            }
        }
        assert(all_digits(s.take(k))) by {
            assert forall|i: int| 0 <= i < k implies #[trigger] is_digit(s.take(k)[i]) by {
                assert(is_digit(s[i]));
            }
        }
        lemma_digits_value_nonneg(s.take(k));
        assert(is_digit(s[k]));
        assert(digits_value(t) == digits_value(s.take(k)) * 10 + (s[k] as int - '0' as int));
        lemma_digits_value_prefix(s, k + 1);
    } else {
        assert(s.take(k) =~= s);
    }
}

fn char_is_digit(c: char) -> (r: bool)
    ensures
        r == is_digit(c),
{
    '0' <= c && c <= '9'
}

fn char_to_lower(c: char) -> (r: char)
    ensures
        r == to_lower(c),
{
    if 'A' <= c && c <= 'Z' {
        let u = (c as u32) + 32;
        // SAFETY-free conversion: ASCII letters stay in range
        char_from_ascii(u)
    } else {
        c
    }
}

fn char_from_ascii(u: u32) -> (r: char)
    requires
        u < 128,
    ensures
        r == u as char,
{
    let b = u as u8;
    b as char
}

/// `bool::from_str`.
pub fn parse_bool(cs: &Vec<char>) -> (r: Option<bool>)
    ensures
        r == spec_parse_bool(cs@),
{
    let n = cs.len();
    if n == 4 && cs[0] == 't' && cs[1] == 'r' && cs[2] == 'u' && cs[3] == 'e' {
        assert(cs@ =~= seq!['t', 'r', 'u', 'e']);
        Some(true)
    } else if n == 5 && cs[0] == 'f' && cs[1] == 'a' && cs[2] == 'l' && cs[3] == 's' && cs[4] == 'e' {
        assert(cs@ =~= seq!['f', 'a', 'l', 's', 'e']);
        Some(false)
    } else {
        proof {
            if cs@ == seq!['t', 'r', 'u', 'e'] {
                assert(cs@[0] == 't' && cs@[1] == 'r' && cs@[2] == 'u' && cs@[3] == 'e');
            }
            if cs@ == seq!['f', 'a', 'l', 's', 'e'] {
                assert(cs@[0] == 'f' && cs@[1] == 'a' && cs@[2] == 'l' && cs@[3] == 's' && cs@[4] == 'e');
            }
        }
        None
    }
}

/// `i64::from_str`.
pub fn parse_i64(cs: &Vec<char>) -> (r: Option<i64>)
    ensures
        match r {
            Some(v) => spec_parse_i64(cs@) == Some(v as int),
            None => spec_parse_i64(cs@) is None,
        },
{
    let n = cs.len();
    let ghost body = strip_sign(cs@).1;
    let neg = n > 0 && cs[0] == '-';
    let start: usize = if n > 0 && (cs[0] == '-' || cs[0] == '+') {
        1
    } else {
        0
    };
    assert(body =~= cs@.skip(start as int));
    if start == n {
        return None;
    }
    let mut acc: u64 = 0;
    let mut i: usize = start;
    while i < n
        invariant
            start <= i <= n,
            start < n,
            n == cs@.len(),
            body =~= cs@.skip(start as int),
            body == strip_sign(cs@).1,
            neg == strip_sign(cs@).0,
            all_digits(body.take(i - start)),
            acc as int == digits_value(body.take(i - start)),
        decreases n - i,
    {
        let c = cs[i];
        let ghost k = (i - start) as int;
        assert(body[k] == c);
        if !char_is_digit(c) {
            assert(!all_digits(body));
            return None;
        }
        let d = (c as u32 - '0' as u32) as u64;
        assert(body.take(k + 1).drop_last() =~= body.take(k));
        assert(body.take(k + 1).last() == c);
        assert(all_digits(body.take(k + 1))) by {
            assert forall|j: int| 0 <= j < k + 1 implies #[trigger] is_digit(body.take(k + 1)[j]) by {
                if j < k {
                    assert(body.take(k + 1)[j] == body.take(k)[j]);
                }
            }
        }
        match acc.checked_mul(10) {
            None => {
                proof {
                    overflow_means_out_of_range(body, k + 1, neg);
                }
                return None;
            },
            Some(m) => match m.checked_add(d) {
                None => {
                    proof {
                        overflow_means_out_of_range(body, k + 1, neg);
                    }
                    return None;
                },
                Some(a2) => {
                    acc = a2;
                },
            },
        }
        i = i + 1;
    }
    assert(body.take(n - start) =~= body);
    if neg {
        if acc <= 9223372036854775808u64 {
            if acc == 9223372036854775808u64 {
                Some(i64::MIN)
            } else {
                Some(-(acc as i64))
            }
        } else {
            None
        }
    } else {
        if acc <= 9223372036854775807u64 {
            Some(acc as i64)
        } else {
            None
        }
    }
}

proof fn overflow_means_out_of_range(body: Seq<char>, k: int, neg: bool)
    requires
        0 < k <= body.len(),
        all_digits(body.take(k)),
        digits_value(body.take(k)) > u64::MAX,
    ensures
        all_digits(body) ==> !(i64::MIN <= (if neg {
            -digits_value(body)
        } else {
            digits_value(body)
        }) <= i64::MAX),
{
    if all_digits(body) {
        lemma_digits_value_prefix(body, k);
    }
}


fn check_mantissa(cs: &Vec<char>, lo: usize, hi: usize) -> (r: bool)
    requires
        lo <= hi <= cs@.len(),
    ensures
        r == is_mantissa(cs@.subrange(lo as int, hi as int)),
{
    let ghost m = cs@.subrange(lo as int, hi as int);
    let mut i = lo;
    let mut dot: Option<usize> = None;
    let mut digit = false;
    while i < hi
        invariant
            lo <= i <= hi <= cs@.len(),
            m == cs@.subrange(lo as int, hi as int),
            forall|k: int| 0 <= k < i - lo ==> is_digit(#[trigger] m[k]) || m[k] == '.',
            match dot {
                Some(d) => lo <= d < i && m[d - lo] == '.' && forall|k: int| 0 <= k < i - lo && k != d - lo ==> #[trigger] m[k] != '.',
                None => forall|k: int| 0 <= k < i - lo ==> #[trigger] m[k] != '.',
            },
            digit == exists|k: int| 0 <= k < i - lo && is_digit(#[trigger] m[k]),
        decreases hi - i,
    {
        let c = cs[i];
        assert(m[i - lo] == c);
        if char_is_digit(c) {
            digit = true;
        } else if c == '.' {
            if let Some(d) = dot {
                assert(m[d - lo] == '.' && m[i - lo] == '.');
                return false;
            }
            dot = Some(i);
        } else {
            return false;
        }
        i = i + 1;
    }
    digit
}

fn check_exponent(cs: &Vec<char>, lo: usize, hi: usize) -> (r: bool)
    requires
        lo <= hi <= cs@.len(),
    ensures
        r == is_exponent(cs@.subrange(lo as int, hi as int)),
{
    let ghost x = cs@.subrange(lo as int, hi as int);
    if hi - lo < 2 || !(cs[lo] == 'e' || cs[lo] == 'E') {
        return false;
    }
    let start = if cs[lo + 1] == '+' || cs[lo + 1] == '-' {
        lo + 2
    } else {
        lo + 1
    };
    let ghost d = cs@.subrange(start as int, hi as int);
    assert(d =~= (if x[1] == '+' || x[1] == '-' { x.skip(2) } else { x.skip(1) }));
    if start == hi {
        return false;
    }
    let mut i = start;
    while i < hi
        invariant
            start <= i <= hi <= cs@.len(),
            d == cs@.subrange(start as int, hi as int),
            x == cs@.subrange(lo as int, hi as int),
            x.len() >= 2 && (x[0] == 'e' || x[0] == 'E'),
            d == (if x[1] == '+' || x[1] == '-' { x.skip(2) } else { x.skip(1) }),
            d.len() > 0,
            forall|k: int| 0 <= k < i - start ==> #[trigger] is_digit(d[k]),
        decreases hi - i,
    {
        assert(d[i - start] == cs@[i as int]);
        if !char_is_digit(cs[i]) {
            assert(!is_digit(d[i - start]));
            return false;
        }
        i = i + 1;
    }
    true
}

fn find_exponent(cs: &Vec<char>, lo: usize, hi: usize) -> (r: Option<usize>)
    requires
        lo <= hi <= cs@.len(),
    ensures
        match r {
            Some(e) => lo <= e < hi && exponent_index(cs@.subrange(lo as int, hi as int), 0) == Some(e - lo),
            None => exponent_index(cs@.subrange(lo as int, hi as int), 0) is None,
        },
{
    let ghost b = cs@.subrange(lo as int, hi as int);
    let mut i = lo;
    while i < hi
        invariant
            lo <= i <= hi <= cs@.len(),
            b == cs@.subrange(lo as int, hi as int),
            exponent_index(b, i - lo) == exponent_index(b, 0),
        decreases hi - i,
    {
        assert(b[i - lo] == cs@[i as int]);
        if cs[i] == 'e' || cs[i] == 'E' {
            return Some(i);
        }
        i = i + 1;
    }
    None
}

fn eq_ignore_case_exec(cs: &Vec<char>, lo: usize, hi: usize, w: &Vec<char>) -> (r: bool)
    requires
        lo <= hi <= cs@.len(),
    ensures
        r == eq_ignore_case(cs@.subrange(lo as int, hi as int), w@),
{
    let ghost s = cs@.subrange(lo as int, hi as int);
    if hi - lo != w.len() {
        return false;
    }
    let mut i: usize = 0;
    while i < w.len()
        invariant
            i <= w@.len(),
            hi - lo == w@.len(),
            lo <= hi <= cs@.len(),
            s == cs@.subrange(lo as int, hi as int),
            forall|k: int| 0 <= k < i ==> #[trigger] to_lower(s[k]) == w@[k],
        decreases w@.len() - i,
    {
        assert(s[i as int] == cs@[lo + i]);
        if char_to_lower(cs[lo + i]) != w[i] {
            return false;
        }
        i = i + 1;
    }
    true
}

/// Whether the characters `cs` are accepted by `f64::from_str`.
pub fn is_float_literal(cs: &Vec<char>) -> (r: bool)
    ensures
        r == spec_is_float_literal(cs@),
{
    let n = cs.len();
    let start: usize = if n > 0 && (cs[0] == '-' || cs[0] == '+') {
        1
    } else {
        0
    };
    let ghost body = strip_sign(cs@).1;
    assert(body =~= cs@.subrange(start as int, n as int));
    if eq_ignore_case_exec(cs, start, n, &vec!['i', 'n', 'f']) {
        return true;
    }
    if eq_ignore_case_exec(cs, start, n, &vec!['i', 'n', 'f', 'i', 'n', 'i', 't', 'y']) {
        return true;
    }
    if eq_ignore_case_exec(cs, start, n, &vec!['n', 'a', 'n']) {
        return true;
    }
    match find_exponent(cs, start, n) {
        None => check_mantissa(cs, start, n),
        Some(e) => {
            assert(body.take(e - start) =~= cs@.subrange(start as int, e as int));
            assert(body.skip(e - start) =~= cs@.subrange(e as int, n as int));
            check_mantissa(cs, start, e) && check_exponent(cs, e, n)
        },
    }
}

impl TemplateValue {
    /// The value that `src` stands for: `true`/`false` as a boolean, else an `i64` as a
    /// number, else a floating-point literal as a float, else the text itself.
    pub fn from(src: &str) -> (r: TemplateValue)
        ensures
            r.spec_view() == spec_value_from(src@),
            crate::value::keys_distinct(r.spec_view()),
    {
        let cs = chars_of(src);
        match parse_bool(&cs) {
            Some(b) => TemplateValue::Bool(b),
            None => match parse_i64(&cs) {
                Some(n) => TemplateValue::Number(n),
                None => if is_float_literal(&cs) {
                    TemplateValue::Float(String::from_str(src))
                } else {
                    TemplateValue::Text(String::from_str(src))
                },
            },
        }
    }
}

} // verus!

verus! {

proof fn lemma_digit_char(d: int)
    requires
        0 <= d <= 9,
    ensures
        is_digit(digit_char(d)),
        digit_char(d) as int - '0' as int == d,
{
    assert('0' as int == 48);
    assert('1' as int == 49);
    assert('2' as int == 50);
    assert('3' as int == 51);
    assert('4' as int == 52);
    assert('5' as int == 53);
    assert('6' as int == 54);
    assert('7' as int == 55);
    assert('8' as int == 56);
    assert('9' as int == 57);
}

proof fn lemma_nat_digits(m: nat)
    ensures
        nat_digits(m).len() >= 1,
        all_digits(nat_digits(m)),
        digits_value(nat_digits(m)) == m,
    decreases m,
{
    if m < 10 {
        lemma_digit_char(m as int);
        reveal_with_fuel(digits_value, 2);
        assert(seq![digit_char(m as int)].drop_last() =~= Seq::<char>::empty());
        assert(digits_value(Seq::<char>::empty()) == 0);
    } else {
        let q = (m / 10) as nat;
        let d = (m % 10) as int;
        lemma_nat_digits(q);
        lemma_digit_char(d);
        let s = nat_digits(m);
        assert(s == nat_digits(q).push(digit_char(d)));
        assert(s.drop_last() =~= nat_digits(q));
        assert forall|i: int| 0 <= i < s.len() implies #[trigger] is_digit(s[i]) by {
            if i < s.len() - 1 {
                assert(s[i] == nat_digits(q)[i]);
            }
        }
        assert(s.last() == digit_char(d));
        assert(digits_value(s) == digits_value(nat_digits(q)) * 10 + (digit_char(d) as int - '0' as int));
        assert(q * 10 + d == m) by (nonlinear_arith)
            requires
                q == m / 10,
                d == m % 10,
        ;
    }
}

/// A number written as text reads back as that number.
pub proof fn lemma_number_text_round_trip(n: int)
    requires
        i64::MIN <= n <= i64::MAX,
    ensures
        spec_value_from(crate::value::format::value_text(SpecValue::Number(n))) == SpecValue::Number(n),
{
    let t = crate::value::format::int_text(n);
    if n < 0 {
        let m = (-n) as nat;
        lemma_nat_digits(m);
        assert(t[0] == '-');
        assert(t.drop_first() =~= crate::value::format::nat_digits(m));
        assert(spec_parse_bool(t) is None) by {
            if t == seq!['t', 'r', 'u', 'e'] {
                assert(t[0] == 't');
            }
            if t == seq!['f', 'a', 'l', 's', 'e'] {
                assert(t[0] == 'f');
            }
        }
    } else {
        lemma_nat_digits(n as nat);
        assert(is_digit(t[0]));
        assert(spec_parse_bool(t) is None) by {
            if t == seq!['t', 'r', 'u', 'e'] {
                assert(t[0] == 't');
            }
            if t == seq!['f', 'a', 'l', 's', 'e'] {
                assert(t[0] == 'f');
            }
        }
        assert(strip_sign(t) == (false, t));
    }
}

/// A boolean written as text reads back as that boolean.
pub proof fn lemma_bool_text_round_trip(b: bool)
    ensures
        spec_value_from(crate::value::format::value_text(SpecValue::Bool(b))) == SpecValue::Bool(b),
{
}

proof fn lemma_no_exponent(s: Seq<char>, i: int)
    requires
        0 <= i,
        forall|k: int| 0 <= k < s.len() ==> is_digit(#[trigger] s[k]) || s[k] == '.',
    ensures
        exponent_index(s, i) is None,
    decreases s.len() - i,
{
    if i < s.len() {
        assert(is_digit(s[i]) || s[i] == '.');
        lemma_no_exponent(s, i + 1);
    }
}

/// A decimal fraction (digits, a point, digits) reads as a floating-point number that
/// keeps its text; it is neither a boolean, nor an integer, nor a plain text.
pub proof fn lemma_decimal_reads_as_float(a: Seq<char>, b: Seq<char>)
    requires
        a.len() > 0,
        b.len() > 0,
        all_digits(a),
        all_digits(b),
    ensures
        spec_value_from(a + seq!['.'] + b) == SpecValue::Float(a + seq!['.'] + b),
{
    let s = a + seq!['.'] + b;
    let p = a.len() as int;
    assert(s[p] == '.');
    assert forall|k: int| 0 <= k < s.len() implies is_digit(#[trigger] s[k]) || s[k] == '.' by {
        if k < p {
            assert(s[k] == a[k]);
            assert(is_digit(a[k]));
        } else if k > p {
            assert(s[k] == b[k - p - 1]);
            assert(is_digit(b[k - p - 1]));
        }
    }
    assert(forall|k: int| 0 <= k < s.len() && k != p ==> #[trigger] is_digit(s[k])) by {
        assert forall|k: int| 0 <= k < s.len() && k != p implies #[trigger] is_digit(s[k]) by {
            if k < p {
                assert(s[k] == a[k]);
                assert(is_digit(a[k]));
            } else {
                assert(s[k] == b[k - p - 1]);
                assert(is_digit(b[k - p - 1]));
            }
        }
    }
    assert(s[0] == a[0] && is_digit(a[0]));
    assert(spec_parse_bool(s) is None) by {
        if s == seq!['t', 'r', 'u', 'e'] {
            assert(s[0] == 't');
        }
        if s == seq!['f', 'a', 'l', 's', 'e'] {
            assert(s[0] == 'f');
        }
    }
    assert(strip_sign(s) == (false, s));
    assert(!all_digits(s)) by {
        assert(!is_digit(s[p]));
    }
    assert(spec_parse_i64(s) is None);
    assert(!eq_ignore_case(s, seq!['i', 'n', 'f'])) by {
        if eq_ignore_case(s, seq!['i', 'n', 'f']) {
            assert(to_lower(s[0]) == 'i');
        }
    }
    assert(!eq_ignore_case(s, seq!['i', 'n', 'f', 'i', 'n', 'i', 't', 'y'])) by {
        if eq_ignore_case(s, seq!['i', 'n', 'f', 'i', 'n', 'i', 't', 'y']) {
            assert(to_lower(s[0]) == 'i');
        }
    }
    assert(!eq_ignore_case(s, seq!['n', 'a', 'n'])) by {
        if eq_ignore_case(s, seq!['n', 'a', 'n']) {
            assert(to_lower(s[0]) == 'n');
        }
    }
    lemma_no_exponent(s, 0);
    assert(is_mantissa(s)) by {
        assert forall|i: int, j: int| 0 <= i < j < s.len() implies !(#[trigger] s[i] == '.' && #[trigger] s[j] == '.') by {
            if s[i] == '.' && s[j] == '.' {
                assert(i == p || is_digit(s[i]));
                assert(j == p || is_digit(s[j]));
            }
        }
        assert(is_digit(s[0]));
    }
    assert(is_number(s));
    assert(spec_is_float_literal(s));
}

} // verus!
