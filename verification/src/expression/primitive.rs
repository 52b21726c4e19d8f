use vstd::prelude::*;
use vstd::string::*;

use crate::error::{TemplateError, TmplResult};
use crate::expression::manager::NativePrimitive;
use crate::value::format::{nat_digits, nat_to_string};
use crate::value::{SpecValue, TemplateValue};

verus! {

/// The models of a list of values.
pub open spec fn values_view(v: Seq<TemplateValue>) -> Seq<SpecValue> {
    Seq::new(v.len(), |i: int| v[i].spec_view())
}

/// The result of a primitive: a value, or the two texts of a failed check.
pub type SpecCheck = Result<SpecValue, (Seq<char>, Seq<char>)>;

/// `r` is the result `s`: the same value, or a check error with the same texts.
pub open spec fn check_result(r: TmplResult<TemplateValue>, s: SpecCheck) -> bool {
    match s {
        Ok(w) => r matches Ok(v) && v.spec_view() == w,
        Err((a, b)) => r matches Err(TemplateError::CheckError(x, y)) && x@ == a && y@ == b,
    }
}

/// The check error of a primitive given `n` arguments where it takes `count`.
pub open spec fn count_error(n: nat, count: nat) -> (Seq<char>, Seq<char>) {
    (seq!['c', 'o', 'u', 'n', 't'], nat_digits(n) + seq![' ', '!', '=', ' '] + nat_digits(count))
}

/// The name of a primitive.
pub open spec fn native_name(p: NativePrimitive) -> Seq<char> {
    match p {
        NativePrimitive::Get => seq!['g', 'e', 't'],
        NativePrimitive::GetOr => seq!['g', 'e', 't', '_', 'o', 'r'],
        NativePrimitive::Add => seq!['a', 'd', 'd'],
        NativePrimitive::Sub => seq!['s', 'u', 'b'],
        NativePrimitive::Multi => seq!['m', 'u', 'l', 't', 'i'],
        NativePrimitive::Div => seq!['d', 'i', 'v'],
        NativePrimitive::Mod => seq!['m', 'o', 'd'],
    }
}

pub open spec fn in_i64(v: int) -> bool {
    i64::MIN <= v <= i64::MAX
}

/// The arithmetic of a primitive on two numbers, as on `i64`: `None` where it overflows
/// or divides by zero; division and remainder round toward zero.
pub open spec fn spec_arith(p: NativePrimitive, x: i64, y: i64) -> Option<int> {
    match p {
        NativePrimitive::Add => if in_i64(x + y) {
            Some(x + y)
        } else {
            None
        },
        NativePrimitive::Sub => if in_i64(x - y) {
            Some(x - y)
        } else {
            None
        },
        NativePrimitive::Multi => if in_i64(x * y) {
            Some(x * y)
        } else {
            None
        },
        NativePrimitive::Div => match x.checked_div(y) {
            Some(z) => Some(z as int),
            None => None,
        },
        NativePrimitive::Mod => match x.checked_rem(y) {
            Some(z) => Some(z as int),
            None => None,
        },
        _ => None,
    }
}

/// What a primitive computes from the values of its arguments.
///
/// `get_or` gives the empty text. `get` takes a value and a key: of nothing it gives
/// nothing, of an array and a number the element at that index (nothing past the end);
/// other arguments fail the check. The arithmetic primitives take two numbers.
pub open spec fn spec_native(p: NativePrimitive, params: Seq<SpecValue>) -> SpecCheck {
    match p {
        NativePrimitive::GetOr => Ok(SpecValue::Text(Seq::empty())),
        NativePrimitive::Get => if params.len() != 2 {
            Err(count_error(params.len(), 2))
        } else if params[0] is Null {
            Ok(SpecValue::Null)
        } else {
            match (params[0], params[1]) {
                (SpecValue::Array(a), SpecValue::Number(i)) => {
                    let k = (i as usize) as int;
                    if k < a.len() {
                        Ok(a[k])
                    } else {
                        Ok(SpecValue::Null)
                    }
                },
                _ => Err((seq!['t', 'y', 'p', 'e'], native_name(p))),
            }
        },
        _ => if params.len() != 2 {
            Err(count_error(params.len(), 2))
        } else {
            match (params[0], params[1]) {
                (SpecValue::Number(x), SpecValue::Number(y)) => if in_i64(x) && in_i64(y) {
                    match spec_arith(p, x as i64, y as i64) {
                        Some(z) => Ok(SpecValue::Number(z)),
                        None => Err((seq!['r', 'a', 'n', 'g', 'e'], native_name(p))),
                    }
                } else {
                    Err((seq!['r', 'a', 'n', 'g', 'e'], native_name(p)))
                },
                _ => Err((seq!['t', 'y', 'p', 'e'], native_name(p))),
            }
        },
    }
}

/// Checks that a primitive was given `count` arguments.
pub fn check_count(param: &Vec<TemplateValue>, count: usize) -> (r: TmplResult<()>)
    ensures
        param@.len() == count ==> r is Ok,
        param@.len() != count ==> (r matches Err(TemplateError::CheckError(a, b)) && (a@, b@) == count_error(
            param@.len(),
            count as nat,
        )),
{
    if param.len() != count {
        proof {
            reveal_strlit("count");
            reveal_strlit(" != ");
        }
        let mut msg = nat_to_string(param.len() as u64);
        msg.append(" != ");
        let c = nat_to_string(count as u64);
        msg.append(c.as_str());
        return Err(TemplateError::CheckError(String::from_str("count"), msg));
    }
    Ok(())
}

fn check_error(what: &str, name: &str) -> (r: TmplResult<TemplateValue>)
    ensures
        r matches Err(TemplateError::CheckError(a, b)) && a@ == what@ && b@ == name@,
{
    Err(TemplateError::CheckError(String::from_str(what), String::from_str(name)))
}

fn name_of(p: NativePrimitive) -> (r: &'static str)
    ensures
        r@ == native_name(p),
{
    proof {
        reveal_strlit("get");
        reveal_strlit("get_or");
        reveal_strlit("add");
        reveal_strlit("sub");
        reveal_strlit("multi");
        reveal_strlit("div");
        reveal_strlit("mod");
    }
    match p {
        NativePrimitive::Get => "get",
        NativePrimitive::GetOr => "get_or",
        NativePrimitive::Add => "add",
        NativePrimitive::Sub => "sub",
        NativePrimitive::Multi => "multi",
        NativePrimitive::Div => "div",
        NativePrimitive::Mod => "mod",
    }
}

/// The value `or` a default: the empty text.
pub fn get_or(params: Vec<TemplateValue>) -> (r: TmplResult<TemplateValue>)
    ensures
        check_result(r, spec_native(NativePrimitive::GetOr, values_view(params@))),
{
    Ok(TemplateValue::Text(String::new()))
}

/// The element of a value under a key (see [`spec_native`]).
pub fn get(params: Vec<TemplateValue>) -> (r: TmplResult<TemplateValue>)
    ensures
        check_result(r, spec_native(NativePrimitive::Get, values_view(params@))),
{
    let ghost pv = values_view(params@);
    match check_count(&params, 2) {
        Err(e) => {
            return Err(e);
        },
        Ok(_) => {},
    }
    assert(pv[0] == params@[0].spec_view());
    assert(pv[1] == params@[1].spec_view());
    let first = &params[0];
    let second = &params[1];
    if let TemplateValue::Null = first {
        return Ok(TemplateValue::Null);
    }
    if let TemplateValue::Array(arr) = first {
        if let TemplateValue::Number(index) = second {
            let i = *index as usize;
            if i < arr.len() {
                assert(pv[0]->Array_0[i as int] == arr@[i as int].spec_view());
                return Ok(arr[i].clone());
            } else {
                return Ok(TemplateValue::Null);
            }
        }
    }
    proof {
        reveal_strlit("type");
        assert("type"@ =~= seq!['t', 'y', 'p', 'e']);
    }
    check_error("type", name_of(NativePrimitive::Get))
}

/// What a primitive computes from the values of its arguments (see [`spec_native`]).
pub fn call_native(p: NativePrimitive, params: Vec<TemplateValue>) -> (r: TmplResult<TemplateValue>)
    ensures
        check_result(r, spec_native(p, values_view(params@))),
{
    match p {
        NativePrimitive::Get => {
            return get(params);
        },
        NativePrimitive::GetOr => {
            return get_or(params);
        },
        _ => {},
    }
    let ghost pv = values_view(params@);
    match check_count(&params, 2) {
        Err(e) => {
            return Err(e);
        },
        Ok(_) => {},
    }
    assert(pv[0] == params@[0].spec_view());
    assert(pv[1] == params@[1].spec_view());
    proof {
        reveal_strlit("type");
        reveal_strlit("range");
        assert("type"@ =~= seq!['t', 'y', 'p', 'e']);
        assert("range"@ =~= seq!['r', 'a', 'n', 'g', 'e']);
    }
    match (&params[0], &params[1]) {
        (TemplateValue::Number(x), TemplateValue::Number(y)) => {
            let z = match p {
                NativePrimitive::Add => x.checked_add(*y),
                NativePrimitive::Sub => x.checked_sub(*y),
                NativePrimitive::Multi => x.checked_mul(*y),
                NativePrimitive::Div => x.checked_div(*y),
                _ => x.checked_rem(*y),
            };
            match z {
                Some(v) => Ok(TemplateValue::Number(v)),
                None => check_error("range", name_of(p)),
            }
        },
        _ => check_error("type", name_of(p)),
    }
}

} // verus!

verus! {

/// Adding and multiplying numbers does not depend on the order of the arguments, nor does
/// their overflowing.
pub proof fn lemma_add_multi_commute(x: i64, y: i64)
    ensures
        spec_native(NativePrimitive::Add, seq![SpecValue::Number(x as int), SpecValue::Number(y as int)])
            == spec_native(NativePrimitive::Add, seq![SpecValue::Number(y as int), SpecValue::Number(x as int)]),
        spec_native(NativePrimitive::Multi, seq![SpecValue::Number(x as int), SpecValue::Number(y as int)])
            == spec_native(NativePrimitive::Multi, seq![SpecValue::Number(y as int), SpecValue::Number(x as int)]),
{
    assert(x * y == y * x) by (nonlinear_arith);
}

/// `get` of an array and an index inside it is the element there.
pub proof fn lemma_get_in_array(a: Seq<SpecValue>, i: i64)
    requires
        0 <= i < a.len(),
        a.len() <= usize::MAX,
    ensures
        spec_native(NativePrimitive::Get, seq![SpecValue::Array(a), SpecValue::Number(i as int)]) == Ok::<SpecValue, (Seq<char>, Seq<char>)>(a[i as int]),
{
    assert(((i as int) as usize) as int == i as int);
}

/// The arithmetic primitives compute on two `i64` numbers as the operators do: `add`,
/// `sub` and `multi` give `x + y`, `x - y` and `x * y` (the left operand first) when the
/// result fits in an `i64`, and a `range` error when it does not.
pub proof fn lemma_arith_results(x: i64, y: i64)
    ensures
        spec_native(NativePrimitive::Add, seq![SpecValue::Number(x as int), SpecValue::Number(y as int)]) == (
        if i64::MIN <= x + y <= i64::MAX {
            Ok::<SpecValue, (Seq<char>, Seq<char>)>(SpecValue::Number(x + y))
        } else {
            Err((seq!['r', 'a', 'n', 'g', 'e'], seq!['a', 'd', 'd']))
        }),
        spec_native(NativePrimitive::Sub, seq![SpecValue::Number(x as int), SpecValue::Number(y as int)]) == (
        if i64::MIN <= x - y <= i64::MAX {
            Ok::<SpecValue, (Seq<char>, Seq<char>)>(SpecValue::Number(x - y))
        } else {
            Err((seq!['r', 'a', 'n', 'g', 'e'], seq!['s', 'u', 'b']))
        }),
        spec_native(NativePrimitive::Multi, seq![SpecValue::Number(x as int), SpecValue::Number(y as int)]) == (
        if i64::MIN <= x * y <= i64::MAX {
            Ok::<SpecValue, (Seq<char>, Seq<char>)>(SpecValue::Number(x * y))
        } else {
            Err((seq!['r', 'a', 'n', 'g', 'e'], seq!['m', 'u', 'l', 't', 'i']))
        }),
{
}

/// `div` and `mod` of two `i64` numbers, where the quotient is defined, give the quotient
/// and remainder of division rounding toward zero: `q * y + r == x`, the remainder is
/// smaller than the divisor in size and is zero or has the sign of `x`.
pub proof fn lemma_div_mod_results(x: i64, y: i64)
    requires
        y != 0,
        !(x == i64::MIN && y == -1),
    ensures
        spec_native(NativePrimitive::Div, seq![SpecValue::Number(x as int), SpecValue::Number(y as int)]) matches Ok(
            SpecValue::Number(q),
        ) && spec_native(NativePrimitive::Mod, seq![SpecValue::Number(x as int), SpecValue::Number(y as int)]) matches Ok(
            SpecValue::Number(r),
        ) && {
            &&& q * y + r == x
            &&& (if r < 0 { -r } else { r }) < (if y < 0 { -(y as int) } else { y as int })
            &&& (r == 0 || (r > 0) == (x > 0))
        },
{
    let xi = x as int;
    let d = y as int;
    if xi == 0 {
    } else if xi > 0 && d > 0 {
        assert((xi / d) * d + xi % d == xi && 0 <= xi % d < d && 0 <= xi / d <= xi) by (nonlinear_arith)
            requires xi > 0, d > 0;
    } else if xi < 0 && d < 0 {
        let a = -xi;
        let b = -d;
        assert(a == b * (a / b) + a % b && 0 <= a % b < b && 0 <= a / b <= a) by (nonlinear_arith)
            requires a > 0, b > 0;
        assert(a / b <= i64::MAX) by (nonlinear_arith)
            requires a > 0, b > 0, a <= 0x8000_0000_0000_0000, b == 1 ==> a <= 0x7fff_ffff_ffff_ffff;
        assert((a / b) * d + (-(a % b)) == xi) by (nonlinear_arith)
            requires a == b * (a / b) + a % b, a == -xi, b == -d;
    } else if xi < 0 {
        let a = -xi;
        assert(a == d * (a / d) + a % d && 0 <= a % d < d && 0 <= a / d <= a) by (nonlinear_arith)
            requires a > 0, d > 0;
        assert(((a / d) * -1) * d + (-(a % d)) == xi) by (nonlinear_arith)
            requires a == d * (a / d) + a % d, a == -xi;
    } else {
        let b = -d;
        assert(xi == b * (xi / b) + xi % b && 0 <= xi % b < b && 0 <= xi / b <= xi) by (nonlinear_arith)
            requires xi > 0, b > 0;
        assert(((xi / b) * -1) * d + xi % b == xi) by (nonlinear_arith)
            requires xi == b * (xi / b) + xi % b, b == -d;
    }
}

} // verus!
