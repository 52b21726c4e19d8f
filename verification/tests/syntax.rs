use easy_template::ast::{CommandParam, TemplateAst};
use easy_template::compile::ast_stack::TmplAstStack;
use easy_template::error::TemplateError;
use easy_template::expression::specs::ExpressionIR;
use easy_template::syntax::{BranchSyntax, ChildStageSyntax, CommandSyntax, OperatorSyntax, ParamSyntax};
use easy_template::value::TemplateValue;

#[test]
fn command_build_reads_assignment_and_keyword() {
    let syntax = CommandSyntax::new(
        "a",
        vec![(
            "default",
            vec![ParamSyntax::Assignment, ParamSyntax::Keywords("in".to_string()), ParamSyntax::Expression],
        )],
    );
    let branch = syntax.build("a = in items").unwrap();
    assert_eq!(branch.key, "default");
    assert_eq!(branch.params.len(), 1);
    match &branch.params[0] {
        CommandParam::Assignment(names) => assert_eq!(names, &vec!["a".to_string()]),
        other => panic!("{:?}", other),
    }
    let keyword = CommandSyntax::new("in", vec![("default", vec![ParamSyntax::Keywords("in".to_string())])]);
    assert!(matches!(keyword.build("in x").unwrap().params[0], CommandParam::Keywords));
    assert!(syntax.build("a (b,c) = 1").unwrap().params.is_empty());
    assert!(matches!(syntax.build("if x"), Err(TemplateError::GenericError(_))));
}

#[test]
fn matched_stage_by_prefix() {
    let branch = BranchSyntax::new(
        CommandSyntax::new("if", vec![("default", vec![ParamSyntax::Expression])]),
        vec![
            ChildStageSyntax::new_no_bind(CommandSyntax::new_empty_param("else-if")),
            ChildStageSyntax::new_no_bind(CommandSyntax::new_empty_param("else")),
        ],
        CommandSyntax::new_empty_param("end-if"),
    );
    assert_eq!(branch.get_matched_type("else x").unwrap().tag().key(), "else");
    assert_eq!(branch.get_matched_type("else-if x").unwrap().tag().key(), "else-if");
    assert!(branch.get_matched_type("end-if").is_none());
}

#[test]
fn flow_node_collects_stage_children() {
    let op = OperatorSyntax::new_branch(
        BranchSyntax::new(
            CommandSyntax::new("for", vec![("default", vec![])]),
            vec![],
            CommandSyntax::new_empty_param("end-for"),
        ),
        vec![],
        true,
    );
    let node = op.build_ast("for x").unwrap();
    let mut stack = TmplAstStack::default();
    stack.add_node(node).unwrap();
    assert!(stack.has_stack());
    stack.add_node(TemplateAst::new_text("a")).unwrap();
    stack.add_node(TemplateAst::new_text("b")).unwrap();
    match stack.last_mut_stack() {
        Some(TemplateAst::ItemBranch(key, stages, looping)) => {
            assert_eq!(key, "for");
            assert!(*looping);
            assert_eq!(stages[0].child_stages.len(), 1);
            assert_eq!(stages[0].child_stages[0].get_tag(), None);
        }
        other => panic!("{:?}", other),
    }
    assert!(stack.check_scope(&vec!["for".to_string()]).is_ok());
    let ops = vec![op];
    assert!(stack.get_stack_top_operator(&ops).unwrap().is_some());
    assert!(stack.get_stack_top_operator(&vec![]).is_err());
}

#[test]
fn flat_depth_group_flattens_each() {
    let mut parts = vec![
        ExpressionIR::ItemGroup(vec![ExpressionIR::ItemValue(TemplateValue::Number(1))]),
        ExpressionIR::ItemGroup(vec![]),
    ];
    ExpressionIR::flat_depth_group(&mut parts).unwrap();
    assert_eq!(parts[0].to_string(), "'1'");
    assert_eq!(parts[1].to_string(), "()");
}
