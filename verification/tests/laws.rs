use easy_template::expression::manager::ExpressionManager;
use easy_template::expression::parse::ExpressCompileIR;
use easy_template::expression::primitive::{call_native, get};
use easy_template::expression::manager::NativePrimitive;
use easy_template::expression::specs::{ExpressionIR, SymbolType};
use easy_template::utils::strings::remove_skip_block;
use easy_template::value::TemplateValue;

#[test]
fn number_and_bool_text_round_trip() {
    for n in [0i64, 7, -7, 1234567, i64::MIN, i64::MAX] {
        let text = TemplateValue::Number(n).to_string();
        assert_eq!(TemplateValue::from(&text), TemplateValue::Number(n));
    }
    for b in [true, false] {
        assert_eq!(TemplateValue::from(&TemplateValue::Bool(b).to_string()), TemplateValue::Bool(b));
    }
}

#[test]
fn split_at_symbol_keeps_text() {
    let mut parts = ExpressCompileIR::parse_static_str("a+b\\+c+");
    ExpressionManager::tagged_symbols_once(&mut parts, SymbolType::Custom("+".to_string())).unwrap();
    let mut text = String::new();
    for p in &parts {
        match p {
            ExpressCompileIR::Original(s) => text.push_str(s),
            ExpressCompileIR::Tag(_) => text.push('+'),
        }
    }
    assert_eq!(text, "a+b\\+c+");
    assert_eq!(parts.len(), 4);
}

#[test]
fn flattening_twice_is_flattening_once() {
    let mut ir = ExpressionIR::ItemGroup(vec![ExpressionIR::ItemGroup(vec![ExpressionIR::ItemValue(
        TemplateValue::Number(1),
    )])]);
    ExpressionIR::flat_depth(&mut ir).unwrap();
    let once = ir.to_string();
    ExpressionIR::flat_depth(&mut ir).unwrap();
    assert_eq!(ir.to_string(), once);
    assert_eq!(once, "'1'");
}

#[test]
fn arithmetic_commutes_and_get_indexes() {
    let a = call_native(NativePrimitive::Add, vec![TemplateValue::Number(2), TemplateValue::Number(40)]).unwrap();
    let b = call_native(NativePrimitive::Add, vec![TemplateValue::Number(40), TemplateValue::Number(2)]).unwrap();
    assert_eq!(a, b);
    assert_eq!(a, TemplateValue::Number(42));
    let arr = TemplateValue::Array(vec![TemplateValue::Number(5), TemplateValue::Number(6)]);
    assert_eq!(get(vec![arr.clone(), TemplateValue::Number(1)]).unwrap(), TemplateValue::Number(6));
    assert_eq!(get(vec![arr.clone(), TemplateValue::Number(-1)]).unwrap(), TemplateValue::Null);
    assert_eq!(get(vec![TemplateValue::Null, TemplateValue::Number(0)]).unwrap(), TemplateValue::Null);
    assert!(get(vec![arr]).is_err());
    assert!(call_native(NativePrimitive::Mod, vec![TemplateValue::Number(1), TemplateValue::Number(0)]).is_err());
    assert_eq!(
        call_native(NativePrimitive::Div, vec![TemplateValue::Number(-7), TemplateValue::Number(2)]).unwrap(),
        TemplateValue::Number(-3)
    );
    assert_eq!(
        call_native(NativePrimitive::GetOr, vec![]).unwrap(),
        TemplateValue::Text(String::new())
    );
}

#[test]
fn text_without_escapes_is_kept_whole() {
    assert_eq!(remove_skip_block("plain text", "}}"), vec!["plain text"]);
}

#[test]
fn value_equals_its_copy() {
    let v = TemplateValue::Table(vec![
        ("k".to_string(), TemplateValue::Array(vec![TemplateValue::Bool(true)])),
    ]);
    assert_eq!(v.clone(), v);
}

#[test]
fn value_equality_is_symmetric_and_transitive() {
    let a = TemplateValue::Table(vec![
        ("x".to_string(), TemplateValue::Number(1)),
        ("y".to_string(), TemplateValue::Text("t".to_string())),
    ]);
    let b = TemplateValue::Table(vec![
        ("y".to_string(), TemplateValue::Text("t".to_string())),
        ("x".to_string(), TemplateValue::Number(1)),
    ]);
    let c = TemplateValue::Table(vec![
        ("x".to_string(), TemplateValue::Number(1)),
        ("y".to_string(), TemplateValue::Text("t".to_string())),
    ]);
    assert!(a == b && b == a);
    assert!(b == c && a == c);
    let f = TemplateValue::Float("1.0".to_string());
    assert!(f != f.clone());
}

#[test]
fn tables_with_a_repeated_key_equal_nothing() {
    let dup = TemplateValue::Table(vec![
        ("k".to_string(), TemplateValue::Number(1)),
        ("k".to_string(), TemplateValue::Number(1)),
    ]);
    let other = TemplateValue::Table(vec![
        ("k".to_string(), TemplateValue::Number(1)),
        ("j".to_string(), TemplateValue::Number(1)),
    ]);
    assert!(dup != other);
    assert!(other != dup);
    assert!(dup != dup.clone());
}
