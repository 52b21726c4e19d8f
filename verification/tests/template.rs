use easy_template::ast::{TemplateAst, TemplateAstValue};
use easy_template::compile::ast_stack::TmplAstStack;
use easy_template::config::TemplateConfig;
use easy_template::engine::EasyTemplate;
use easy_template::error::TemplateError;
use easy_template::statement::DynamicBlock;
use easy_template::template::default_state;

fn text_of(node: &TemplateAst) -> Option<&str> {
    match node {
        TemplateAst::ItemValue(TemplateAstValue::ItemString(s)) => Some(s.as_str()),
        _ => None,
    }
}

#[test]
fn register_template_builds_and_refuses_duplicates() {
    let mut engine = EasyTemplate::default();
    engine.register_template("test", "Hello {{ name }}!").unwrap();
    assert_eq!(engine.templates.len(), 1);
    let root = &engine.templates[0].1;
    assert_eq!(root.len(), 3);
    assert_eq!(text_of(&root[0]), Some("Hello "));
    match &root[1] {
        TemplateAst::ItemValue(TemplateAstValue::ItemExpression(e)) => {
            assert_eq!(e.to_string(), "' name '");
        }
        other => panic!("{:?}", other),
    }
    assert_eq!(text_of(&root[2]), Some("!"));
    match engine.register_template("test", "other") {
        Err(TemplateError::ExistsError(name)) => assert_eq!(name, "test"),
        other => panic!("{:?}", other),
    }
}

#[test]
fn flow_opens_and_drops_inner_blocks() {
    let mut engine = EasyTemplate::default();
    engine
        .register_template("loop", "a{{for item in items}}b{{item}}c")
        .unwrap();
    let root = &engine.templates[0].1;
    assert_eq!(root.len(), 1);
    assert_eq!(text_of(&root[0]), Some("a"));
}

#[test]
fn command_out_of_scope_is_an_error() {
    let mut engine = EasyTemplate::default();
    match engine.register_template("bad", "x{{break }}") {
        Err(TemplateError::GenericError(_)) => {}
        other => panic!("{:?}", other),
    }
}

#[test]
fn static_text_joins() {
    let mut stack = TmplAstStack::default();
    stack.add_node(TemplateAst::new_text("ab")).unwrap();
    stack.add_node(TemplateAst::new_text("cd")).unwrap();
    assert_eq!(stack.root.len(), 1);
    assert_eq!(text_of(&stack.root[0]), Some("abcd"));
    assert!(!stack.has_stack());
    assert!(stack.check_scope(&vec![]).is_ok());
    assert!(stack.check_scope(&vec!["for".to_string()]).is_err());
}

#[test]
fn operator_by_start_needs_a_space() {
    let config = TemplateConfig::default();
    assert_eq!(config.get_operator_by_start("for x in y").unwrap().get_start_tag(), "for");
    assert!(config.get_operator_by_start("format").is_none());
    assert_eq!(default_state().len(), 7);
}

#[test]
fn dynamic_block_reads_marks_and_words() {
    let block = DynamicBlock::new("  - if  a b -  ");
    assert!(block.trim_before);
    assert!(block.trim_after);
    assert_eq!(block.key, "if");
    assert_eq!(block.params, vec!["a", "b"]);
    let plain = DynamicBlock::new("name");
    assert!(!plain.trim_before && !plain.trim_after);
    assert_eq!(plain.key, "name");
    assert!(plain.params.is_empty());
}

#[test]
fn template_without_blocks_is_one_text_node() {
    let mut engine = EasyTemplate::default();
    engine.register_template("plain", "just text, no blocks").unwrap();
    let root = &engine.templates[0].1;
    assert_eq!(root.len(), 1);
    assert_eq!(text_of(&root[0]), Some("just text, no blocks"));
}

#[test]
fn add_node_leaves_the_stack_on_error() {
    let mut stack = TmplAstStack::default();
    stack.child_stack.push(TemplateAst::new_text("not a flow"));
    match stack.add_node(TemplateAst::new_text("x")) {
        Err(TemplateError::GenericError(m)) => {
            assert!(m.starts_with("BUG：栈中永远不会包含控制对象,当前栈信息如下：("));
            assert!(m.ends_with(")！"));
        }
        other => panic!("{:?}", other),
    }
    assert_eq!(stack.child_stack.len(), 1);
    assert_eq!(stack.root.len(), 0);
    match stack.check_scope(&vec!["for".to_string(), "loop".to_string()]) {
        Err(TemplateError::GenericError(m)) => assert_eq!(m, "[\"for\", \"loop\"] 不在作用域内"),
        other => panic!("{:?}", other),
    }
}

#[test]
fn operator_out_of_scope_message() {
    let ops = default_state();
    let stack = TmplAstStack::default();
    match ops[5].check_scope(&stack) {
        Err(TemplateError::GenericError(m)) => {
            assert!(m.starts_with("解析"), "{}", m);
            assert!(m.ends_with(" 失败，\"[\\\"loop\\\", \\\"for\\\"] 不在作用域内\""), "{}", m);
        }
        other => panic!("{:?}", other),
    }
}
