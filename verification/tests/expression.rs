use std::collections::HashMap;

use easy_template::error::TemplateError;
use easy_template::expression::manager::{ExpressionManager, ExpressionSymbolCovert, NativePrimitive, SymbolCovert};
use easy_template::expression::parse::ExpressCompileIR;
use easy_template::expression::parse::ExpressCompileIR::{Original, Tag};
use easy_template::expression::specs::ExpressionIR::{ItemGroup, ItemSymbol, ItemValue};
use easy_template::expression::specs::SymbolType::Custom;
use easy_template::expression::specs::{ExpressionIR, SymbolType};
use easy_template::value::TemplateValue;
use easy_template::value::TemplateValue::Number;

fn new_ir(src: &str) -> Vec<ExpressCompileIR> {
    ExpressCompileIR::parse_static_str(src)
}

fn new_result<'a>(src: &'a str, tag: &str) -> Vec<ExpressCompileIR<'a>> {
    let mut vec = ExpressCompileIR::parse_static_str(src);
    ExpressionManager::tagged_symbols_once(&mut vec, Custom(tag.to_string())).unwrap();
    vec
}

fn new_symbol_tag(symbol: &str) -> ExpressCompileIR {
    Tag(ItemSymbol(Custom(symbol.to_string())))
}

#[test]
fn test_parse_str() {
    assert_eq!(
        ExpressCompileIR::parse_static_str(r#"hello world 'dragon' "dragon""#),
        vec![
            Original("hello world "),
            Tag(ItemValue(TemplateValue::Text("dragon".to_string()))),
            Original(" "),
            Tag(ItemValue(TemplateValue::Text("dragon".to_string()))),
        ]
    )
}

#[test]
fn test_tagged_symbols() {
    let manager = ExpressionManager::default();
    assert_eq!(
        manager.tagged_symbols(new_ir("(1+1)==2")).unwrap(),
        vec![
            ItemSymbol(Custom("(".to_string())),
            ItemValue(Number(1)),
            ItemSymbol(Custom("+".to_string())),
            ItemValue(Number(1)),
            ItemSymbol(Custom(")".to_string())),
            ItemSymbol(Custom("==".to_string())),
            ItemValue(Number(2)),
        ]
    )
}

#[test]
fn test_tagged_symbol_once() {
    assert_eq!(
        new_result("1+2+3==4", "+"),
        vec![
            Original("1"),
            new_symbol_tag("+"),
            Original("2"),
            new_symbol_tag("+"),
            Original("3==4"),
        ]
    );
    assert_eq!(new_result("10", "+"), vec![Original("10")]);
    assert_eq!(new_result("10++10", "-"), vec![Original("10++10")]);
}

#[test]
fn test_parse_groups() {
    let manager = ExpressionManager::default();
    let covert = |src: &str| -> Vec<ExpressionIR> {
        let mut vec = manager.tagged_symbols(new_ir(src)).unwrap();
        ExpressionIR::parse_groups(&mut vec).unwrap();
        vec
    };
    assert_eq!(
        covert("1 + 2 == 3"),
        vec![
            ItemValue(TemplateValue::Number(1)),
            ItemSymbol(Custom("+".to_string())),
            ItemValue(TemplateValue::Number(2)),
            ItemSymbol(Custom("==".to_string())),
            ItemValue(TemplateValue::Number(3)),
        ]
    );
    assert_eq!(
        covert("1 && (2 == 3)"),
        vec![
            ItemValue(TemplateValue::Number(1)),
            ItemSymbol(Custom("&&".to_string())),
            ItemGroup(vec![
                ItemValue(TemplateValue::Number(2)),
                ItemSymbol(Custom("==".to_string())),
                ItemValue(TemplateValue::Number(3)),
            ]),
        ]
    )
}

#[test]
fn optimize_test() {
    let manager = ExpressionManager::default();
    let mut vars = HashMap::new();
    vars.insert("first".to_string(), TemplateValue::Number(12));
    vars.insert("second".to_string(), TemplateValue::Number(12));
    let func = |src: &str| -> Option<TemplateValue> { vars.get(src).map(|e| e.clone()) };
    assert_eq!(
        manager
            .runner(&manager.compile("1 + (2 * 3) + 21").unwrap().ast, &func)
            .unwrap()
            .to_string(),
        "'28'".to_string()
    );
    assert_eq!(
        manager
            .runner(&manager.compile("(var1 + 12) * (14 + 16)").unwrap().ast, &func)
            .unwrap()
            .to_string(),
        "multi(add(${var1},'12'),'30')".to_string()
    );
    assert_eq!(
        manager
            .runner(&manager.compile("(18 + 12) * (14 + 16)").unwrap().ast, &func)
            .unwrap()
            .to_string(),
        "'900'".to_string()
    )
}

#[test]
fn runner_test() {
    let manager = ExpressionManager::default();
    let expression = manager.compile("1 + 2 +3").unwrap();
    println!("{}", expression.to_string());
    println!("{:?}", expression.ast.run(|_name| None, |_item| TemplateValue::Null));
}

#[test]
fn run_asks_for_primitives_and_variables() {
    let manager = ExpressionManager::default();
    let expression = manager.compile("a + 2").unwrap();
    let lookup = |name: &str| if name == "add" { Some(NativePrimitive::Add) } else { None };
    let r = expression.ast.run(lookup, |_item| TemplateValue::Number(40)).unwrap();
    assert_eq!(r.to_string(), "'42'");
    match expression.ast.run(|_name| None, |_item| TemplateValue::Number(1)) {
        Err(TemplateError::ExistsError(name)) => assert_eq!(name, "add"),
        other => panic!("{:?}", other),
    }
}

#[test]
fn compile_variable_path_and_values() {
    let manager = ExpressionManager::default();
    let expression = manager.compile("user.name").unwrap();
    assert_eq!(expression.variables, vec!["user".to_string()]);
    assert_eq!(expression.to_string(), "get(${user},'name')");
    let arr = TemplateValue::Array(vec![TemplateValue::Number(5), TemplateValue::Number(7)]);
    let expression = manager.compile("list.1").unwrap();
    let func = |_: &str| -> Option<TemplateValue> { Some(arr.clone()) };
    assert_eq!(
        manager.runner(&expression.ast, &func).unwrap().to_string(),
        "'7'"
    );
}

#[test]
fn compile_errors() {
    let manager = ExpressionManager::default();
    assert!(matches!(manager.compile("1 +"), Err(TemplateError::SyntaxError(_))));
    match manager.compile("1 / 0") {
        Err(TemplateError::CheckError(a, b)) => {
            assert_eq!(a, "range");
            assert_eq!(b, "div");
        }
        other => panic!("{:?}", other),
    }
    match manager.compile("9223372036854775807 + 1") {
        Err(TemplateError::CheckError(a, _)) => assert_eq!(a, "range"),
        other => panic!("{:?}", other),
    }
}

#[test]
fn symbol_equality_by_text() {
    assert_eq!(SymbolType::BlockStart, Custom("(".to_string()));
    assert_ne!(SymbolType::BlockEnd, SymbolType::BlockCut);
    assert_eq!(SymbolType::BlockCut.to_string(), ",");
}

#[test]
fn ir_text() {
    let ir = ExpressionIR::ItemPrimitive(
        "add".to_string(),
        vec![ItemValue(Number(1)), ExpressionIR::ItemVariable(vec!["a".to_string(), "b".to_string()])],
    );
    assert_eq!(ir.to_string(), "add('1', ${a.b})");
    assert_eq!(ItemSymbol(Custom("+".to_string())).to_string(), " `+` ");
}

fn has_bracket(parts: &[ExpressionIR]) -> bool {
    parts.iter().any(|p| match p {
        ItemSymbol(SymbolType::BlockStart) | ItemSymbol(SymbolType::BlockEnd) | ItemSymbol(SymbolType::BlockCut) => true,
        ItemSymbol(Custom(t)) => t == "(",
        ItemGroup(g) => has_bracket(g),
        ExpressionIR::ItemPrimitive(_, g) => has_bracket(g),
        _ => false,
    })
}

#[test]
fn resolved_groups_hold_no_bracket() {
    let manager = ExpressionManager::default();
    for src in ["1 && (2 == (3 + 4))", "get_or(a, (b + 1), 2) * 3", "((x))"] {
        let mut vec = manager.tagged_symbols(new_ir(src)).unwrap();
        ExpressionIR::parse_groups(&mut vec).unwrap();
        assert!(!has_bracket(&vec), "{}", src);
    }
}

#[test]
fn error_messages_follow_the_engine() {
    let plus = ExpressionSymbolCovert { symbol: "+".to_string(), covert: SymbolCovert::Binary("add".to_string()) };
    let mut at_end = vec![ItemValue(Number(1)), ItemSymbol(Custom("+".to_string()))];
    match ExpressionManager::link_symbol(&plus, &mut at_end) {
        Err(TemplateError::SyntaxError(m)) => assert_eq!(m, "符号'\" `+` \"'位置错误！"),
        other => panic!("{:?}", other),
    }
    let mut operand = vec![
        ItemValue(Number(1)),
        ItemSymbol(Custom("+".to_string())),
        ItemSymbol(Custom("*".to_string())),
        ItemValue(Number(2)),
    ];
    match ExpressionManager::link_symbol(&plus, &mut operand) {
        Err(TemplateError::SyntaxError(m)) => assert!(m.starts_with("符号  `*`  位置错误！ ,\n["), "{}", m),
        other => panic!("{:?}", other),
    }
    match ItemGroup(vec![]).to_ast() {
        Err(TemplateError::SyntaxError(m)) => {
            assert_eq!(m, "无法将 IR 的 Group/Symbol 转换为 AST，可能是 IR 存在未知符号或语法错误.")
        }
        other => panic!("{:?}", other),
    }
}
