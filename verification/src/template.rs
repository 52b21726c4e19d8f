use vstd::prelude::*;

use crate::syntax::{
    BranchSyntax, ChildStageSyntax, CommandSyntax, OperatorSyntax, ParamSyntax, SpecChildStage,
    SpecCommandSyntax, SpecParamSyntax, StageConstraint,
};

verus! {

/// One rule named `default` with the given parameters.
pub open spec fn default_rule(ps: Seq<SpecParamSyntax>) -> Seq<(Seq<char>, Seq<SpecParamSyntax>)> {
    seq![("default"@, ps)]
}

/// A child stage with the given keyword, rules and constraints.
pub open spec fn stage(
    key: Seq<char>,
    rules: Seq<(Seq<char>, Seq<SpecParamSyntax>)>,
    bind: Set<StageConstraint>,
) -> SpecChildStage {
    SpecChildStage { tag: SpecCommandSyntax { key, rules }, bind }
}

/// The rules of `if` and `else-if`: an expression, or an assignment and an expression.
pub open spec fn condition_rules() -> Seq<(Seq<char>, Seq<SpecParamSyntax>)> {
    seq![
        ("default"@, seq![SpecParamSyntax::Expression]),
        ("let"@, seq![SpecParamSyntax::Assignment, SpecParamSyntax::Expression]),
    ]
}

/// A flow operator with the given opening keyword and rules, child stages, closing
/// keyword (without parameters) and loop flag, and no scopes.
pub open spec fn is_flow(
    op: OperatorSyntax,
    start: Seq<char>,
    rules: Seq<(Seq<char>, Seq<SpecParamSyntax>)>,
    stages: Seq<SpecChildStage>,
    end: Seq<char>,
    looping: bool,
) -> bool {
    op matches OperatorSyntax::Branch(w) && w.syntax.start@ == (SpecCommandSyntax { key: start, rules })
        && w.syntax.child_state@.len() == stages.len() && (forall|i: int|
        0 <= i < stages.len() ==> #[trigger] w.syntax.child_state@[i]@ == stages[i])
        && w.syntax.end@.key == end && w.syntax.end@.rules.len() == 0 && w.auto_loop == looping
        && w.scopes@.len() == 0
}

/// A command operator with the given keyword and rules, which must stand in the given
/// scopes.
pub open spec fn is_command(
    op: OperatorSyntax,
    key: Seq<char>,
    rules: Seq<(Seq<char>, Seq<SpecParamSyntax>)>,
    scopes: Seq<Seq<char>>,
) -> bool {
    op matches OperatorSyntax::Command(w) && w.syntax@ == (SpecCommandSyntax { key, rules })
        && w.scope@.len() == scopes.len() && forall|i: int|
        0 <= i < scopes.len() ==> #[trigger] w.scope@[i]@ == scopes[i]
}

/// The flow-control operators of the engine: `for`, `switch` (with `case`, which takes a
/// static value, and `default`), `if` (with `else-if`, which takes the rules of `if`, and
/// `else`, which may appear once; no other stage has a constraint), and the commands
/// `let`, `include`, and `break` and `continue`, which must stand in a loop.
pub open spec fn is_default_state(r: Seq<OperatorSyntax>) -> bool {
    &&& r.len() == 7
    &&& is_flow(
            r[0],
            "for"@,
            default_rule(
                seq![SpecParamSyntax::Assignment, SpecParamSyntax::Keywords("in"@), SpecParamSyntax::Expression],
            ),
            seq![],
            "end-for"@,
            true,
        )
    &&& is_flow(
            r[1],
            "switch"@,
            default_rule(seq![SpecParamSyntax::Expression]),
            seq![
                stage("case"@, default_rule(seq![SpecParamSyntax::StaticValue]), Set::empty()),
                stage("default"@, seq![], Set::empty()),
            ],
            "end-switch"@,
            false,
        )
    &&& is_flow(
            r[2],
            "if"@,
            condition_rules(),
            seq![
                stage("else-if"@, condition_rules(), Set::empty()),
                stage("else"@, seq![], set![StageConstraint::SINGLE]),
            ],
            "end-if"@,
            false,
        )
    &&& is_command(r[3], "let"@, default_rule(seq![SpecParamSyntax::Assignment, SpecParamSyntax::Expression]), seq![])
    &&& is_command(r[4], "include"@, default_rule(seq![SpecParamSyntax::Expression]), seq![])
    &&& is_command(r[5], "break"@, seq![], seq!["loop"@, "for"@])
    &&& is_command(r[6], "continue"@, seq![], seq!["loop"@, "for"@])
}

/// The flow-control operators of the engine (see [`is_default_state`]).
pub fn default_state() -> (r: Vec<OperatorSyntax>)
    ensures
        r@.len() == 7,
        is_flow(
            r@[0],
            "for"@,
            default_rule(
                seq![SpecParamSyntax::Assignment, SpecParamSyntax::Keywords("in"@), SpecParamSyntax::Expression],
            ),
            seq![],
            "end-for"@,
            true,
        ),
        is_flow(
            r@[1],
            "switch"@,
            default_rule(seq![SpecParamSyntax::Expression]),
            seq![
                stage("case"@, default_rule(seq![SpecParamSyntax::StaticValue]), Set::empty()),
                stage("default"@, seq![], Set::empty()),
            ],
            "end-switch"@,
            false,
        ),
        is_flow(
            r@[2],
            "if"@,
            condition_rules(),
            seq![
                stage("else-if"@, condition_rules(), Set::empty()),
                stage("else"@, seq![], set![StageConstraint::SINGLE]),
            ],
            "end-if"@,
            false,
        ),
        is_command(r@[3], "let"@, default_rule(seq![SpecParamSyntax::Assignment, SpecParamSyntax::Expression]), seq![]),
        is_command(r@[4], "include"@, default_rule(seq![SpecParamSyntax::Expression]), seq![]),
        is_command(r@[5], "break"@, seq![], seq!["loop"@, "for"@]),
        is_command(r@[6], "continue"@, seq![], seq!["loop"@, "for"@]),
        is_default_state(r@),
{
    proof {
        reveal_strlit("default");
        reveal_strlit("let");
        reveal_with_fuel(crate::syntax::rules_from, 3);
        reveal_with_fuel(crate::syntax::rule_index, 3);
    }
    let for_start = CommandSyntax::new(
        "for",
        vec![
            (
                "default",
                vec![
                    ParamSyntax::Assignment,
                    ParamSyntax::Keywords(String::from_str("in")),
                    ParamSyntax::Expression,
                ],
            ),
        ],
    );
    assert(for_start@.rules =~~= default_rule(
        seq![SpecParamSyntax::Assignment, SpecParamSyntax::Keywords("in"@), SpecParamSyntax::Expression],
    ));
    let for_op = OperatorSyntax::new_branch(
        BranchSyntax::new(
            for_start,
            vec![],
            CommandSyntax::new_empty_param("end-for"),
        ),
        vec![],
        true,
    );
    let case_cmd = CommandSyntax::new("case", vec![("default", vec![ParamSyntax::StaticValue])]);
    assert(case_cmd@.rules =~~= default_rule(seq![SpecParamSyntax::StaticValue]));
    let default_cmd = CommandSyntax::new_empty_param("default");
    assert(default_cmd@.rules =~= seq![]);
    let switch_start = CommandSyntax::new("switch", vec![("default", vec![ParamSyntax::Expression])]);
    assert(switch_start@.rules =~~= default_rule(seq![SpecParamSyntax::Expression]));
    let switch_op = OperatorSyntax::new_branch(
        BranchSyntax::new(
            switch_start,
            vec![
                ChildStageSyntax::new_no_bind(case_cmd),
                ChildStageSyntax::new_no_bind(default_cmd),
            ],
            CommandSyntax::new_empty_param("end-switch"),
        ),
        vec![],
        false,
    );
    let if_rules = vec![
        ("default", vec![ParamSyntax::Expression]),
        ("let", vec![ParamSyntax::Assignment, ParamSyntax::Expression]),
    ];
    let ghost pv = crate::syntax::pairs_view(if_rules@);
    proof {
        let first = pv.drop_last();
        assert(first.drop_last() =~= Seq::<(Seq<char>, Seq<SpecParamSyntax>)>::empty());
        assert(crate::syntax::rules_from(first) =~= seq![pv[0]]);
        assert(pv[0].0 == "default"@);
        assert(pv[1].0 == "let"@);
        assert("default"@.len() == 7);
        assert("let"@.len() == 3);
        assert(pv[0].0 != pv[1].0);
        assert(crate::syntax::rule_index(seq![pv[0]], pv[1].0, 0) is None);
        assert(crate::syntax::rules_from(pv) =~= seq![pv[0], pv[1]]);
    }
    let if_start = CommandSyntax::new("if", if_rules);
    let elif_rules = vec![
        ("default", vec![ParamSyntax::Expression]),
        ("let", vec![ParamSyntax::Assignment, ParamSyntax::Expression]),
    ];
    let ghost ev = crate::syntax::pairs_view(elif_rules@);
    proof {
        let first = ev.drop_last();
        assert(first.drop_last() =~= Seq::<(Seq<char>, Seq<SpecParamSyntax>)>::empty());
        assert(crate::syntax::rules_from(first) =~= seq![ev[0]]);
        assert(ev[0].0 == "default"@);
        assert(ev[1].0 == "let"@);
        assert(ev[0].0 != ev[1].0);
        assert(crate::syntax::rule_index(seq![ev[0]], ev[1].0, 0) is None);
        assert(crate::syntax::rules_from(ev) =~= seq![ev[0], ev[1]]);
    }
    let elif_cmd = CommandSyntax::new("else-if", elif_rules);
    assert(elif_cmd@.rules =~~= condition_rules());
    let else_cmd = CommandSyntax::new_empty_param("else");
    assert(else_cmd@.rules =~= seq![]);
    let else_bind = vec![StageConstraint::SINGLE];
    assert(else_bind@.to_set() =~= set![StageConstraint::SINGLE]) by {
        assert forall|c: StageConstraint| else_bind@.to_set().contains(c) <==> set![StageConstraint::SINGLE].contains(c) by {
            if c == StageConstraint::SINGLE {
                assert(else_bind@[0] == c);
            }
        }
    }
    let elif_stage = ChildStageSyntax::new_no_bind(elif_cmd);
    let else_stage = else_cmd.to_stage(else_bind);
    assert(elif_stage@ == stage("else-if"@, condition_rules(), Set::empty()));
    assert(else_stage@ == stage("else"@, seq![], set![StageConstraint::SINGLE]));
    assert(if_start@.rules =~~= seq![
        ("default"@, seq![SpecParamSyntax::Expression]),
        ("let"@, seq![SpecParamSyntax::Assignment, SpecParamSyntax::Expression]),
    ]);
    let if_op = OperatorSyntax::new_branch(
        BranchSyntax::new(
            if_start,
            vec![
                elif_stage,
                else_stage,
            ],
            CommandSyntax::new_empty_param("end-if"),
        ),
        vec![],
        false,
    );
    let let_cmd = CommandSyntax::new(
        "let",
        vec![("default", vec![ParamSyntax::Assignment, ParamSyntax::Expression])],
    );
    assert(let_cmd@.rules =~~= default_rule(seq![SpecParamSyntax::Assignment, SpecParamSyntax::Expression]));
    let let_op = OperatorSyntax::new_command(let_cmd, vec![]);
    let include_cmd = CommandSyntax::new("include", vec![("default", vec![ParamSyntax::Expression])]);
    assert(include_cmd@.rules =~~= default_rule(seq![SpecParamSyntax::Expression]));
    let include_op = OperatorSyntax::new_command(include_cmd, vec![]);
    let break_op = OperatorSyntax::new_command(CommandSyntax::new("break", vec![]), vec!["loop", "for"]);
    let continue_op = OperatorSyntax::new_command(
        CommandSyntax::new("continue", vec![]),
        vec!["loop", "for"],
    );
    let r = vec![for_op, switch_op, if_op, let_op, include_op, break_op, continue_op];
    r
}

} // verus!
