use tootvm::bytecode;
use tootvm::bytecode::{LiteralValue, Op};
use tootvm::stage0::scope::{block_has_no_drops, ifs_have_no_drops, reversed};
use tootvm::stage0::statement::try_compile_block;
use tootvm::stage0::{
    BinaryOp, BinaryOpType, BlockScopeAnalysis, CodeGenerator, Expr, Function, If, IfElse,
    LabelData, Loop, Module, ModuleItem, Program, Span, Statement, UnaryOp, UnaryOpType, Var,
};
use std::collections::BTreeSet;

fn lit(i: i64) -> Expr {
    Expr::LiteralValue(Span { span: (), inner: LiteralValue::Integer(i) })
}

fn push(i: i64) -> Op {
    Op::LiteralCreate(LiteralValue::Integer(i))
}

fn var(v: Var) -> Expr {
    Expr::Var(Span { span: (), inner: v })
}

fn binary(op_type: BinaryOpType, lhs: Expr, rhs: Expr) -> Expr {
    Expr::BinaryOp(BinaryOp { op_type, lhs: Box::new(lhs), rhs: Box::new(rhs) })
}

fn assign(v: Var, value: Expr) -> Statement {
    Statement::Assign { place: Box::new(var(v)), value: Box::new(value) }
}

fn compiled(e: Expr) -> Vec<Op> {
    let mut g = CodeGenerator::new();
    e.compile(&mut g);
    g.into_vec()
}

fn compiled_body(body: Vec<Statement>) -> Vec<Op> {
    Function { args: vec![], body }.compile().ops
}

#[test]
fn label_is_placed_once_and_read_back() {
    let mut label = LabelData::new();
    label.set_target(12);
    assert_eq!(label.get_target(), 12);
}

#[test]
fn jump_gets_the_distance_from_itself_to_its_label() {
    let mut g = CodeGenerator::new();
    let back = g.create_label();
    let ahead = g.create_label();
    assert_eq!((back, ahead), (0, 1));
    g.push(Op::StackCopy);
    g.label_here(back);
    g.push(Op::StackCopy);
    g.push_jump(ahead, Op::JumpZero(0));
    g.push_jump(back, Op::Jump(0));
    g.push_jump(ahead, Op::JumpNeg(0));
    g.label_here(ahead);
    g.push(Op::Return);
    assert_eq!(
        g.into_vec(),
        vec![
            Op::StackCopy,
            Op::StackCopy,
            Op::JumpZero(3),
            Op::Jump(-2),
            Op::JumpNeg(1),
            Op::Return,
        ]
    );
}

#[test]
fn released_slot_is_handed_out_again_before_a_new_one() {
    let mut g = CodeGenerator::new();
    g.bind_var(10);
    g.bind_var(11);
    g.bind_var(12);
    g.push_var_load(10);
    g.push_var_load(11);
    g.push_var_store(12);
    g.drop_var(11);
    g.drop_var(10);
    g.bind_var(13);
    g.bind_var(14);
    g.bind_var(15);
    g.push_var_load(13);
    g.push_var_load(14);
    g.push_var_load(15);
    assert_eq!(
        g.into_vec(),
        vec![
            Op::StackLoad(1),
            Op::StackLoad(2),
            Op::StackStore(3),
            Op::StackLoad(1),
            Op::StackLoad(2),
            Op::StackLoad(4),
        ]
    );
}

#[test]
fn loop_labels_are_found_by_name_and_by_nesting() {
    let mut g = CodeGenerator::new();
    g.loop_enter(Some(5));
    g.loop_enter(None);
    assert_eq!(g.loop_get_continue(Some(5)), 0);
    assert_eq!(g.loop_get_break(Some(5)), 1);
    assert_eq!(g.loop_get_continue(None), 2);
    assert_eq!(g.loop_get_break(None), 3);
    g.loop_exit(None);
    assert_eq!(g.loop_get_break(None), 1);
    g.loop_exit(Some(5));
    g.loop_enter(Some(5));
    assert_eq!(g.loop_get_continue(Some(5)), 4);
}

#[test]
fn plain_operator_follows_its_operands() {
    assert_eq!(compiled(binary(BinaryOpType::Sub, lit(5), lit(1))), vec![push(5), push(1), Op::Sub]);
    assert_eq!(
        compiled(binary(BinaryOpType::Identity, lit(5), lit(1))),
        vec![push(5), push(1), Op::Cmp]
    );
    let not = Expr::UnaryOp(UnaryOp { op_type: UnaryOpType::Not, expr: Box::new(lit(5)) });
    assert_eq!(compiled(not), vec![push(5), Op::Not]);
}

#[test]
fn comparison_decides_on_the_sign_of_the_order() {
    assert_eq!(
        compiled(binary(BinaryOpType::Equal, lit(5), lit(1))),
        vec![push(5), push(1), Op::Cmp, Op::JumpZero(3), push(0), Op::Jump(2), push(1)]
    );
    assert_eq!(
        compiled(binary(BinaryOpType::NotEqual, lit(5), lit(1))),
        vec![push(5), push(1), Op::Cmp, Op::JumpZero(3), push(1), Op::Jump(2), push(0)]
    );
    assert_eq!(
        compiled(binary(BinaryOpType::Greater, lit(5), lit(1))),
        vec![push(5), push(1), Op::Cmp, Op::Neg, Op::JumpNeg(3), push(0), Op::Jump(2), push(1)]
    );
    assert_eq!(
        compiled(binary(BinaryOpType::GreaterOrEqual, lit(5), lit(1))),
        vec![push(5), push(1), Op::Cmp, Op::JumpNeg(3), push(1), Op::Jump(2), push(0)]
    );
    assert_eq!(
        compiled(binary(BinaryOpType::Less, lit(5), lit(1))),
        vec![push(5), push(1), Op::Cmp, Op::JumpNeg(3), push(0), Op::Jump(2), push(1)]
    );
    assert_eq!(
        compiled(binary(BinaryOpType::LessOrEqual, lit(5), lit(1))),
        vec![push(5), push(1), Op::Cmp, Op::Neg, Op::JumpNeg(3), push(1), Op::Jump(2), push(0)]
    );
}

#[test]
fn logic_operators_jump_over_their_right_side() {
    assert_eq!(
        compiled(binary(BinaryOpType::LogicAnd, lit(5), lit(6))),
        vec![
            push(5),
            Op::JumpZero(5),
            push(6),
            Op::JumpZero(3),
            push(1),
            Op::Jump(2),
            push(0),
        ]
    );
    assert_eq!(
        compiled(binary(BinaryOpType::LogicOr, lit(5), lit(6))),
        vec![
            push(5),
            Op::JumpZero(2),
            Op::Jump(3),
            push(6),
            Op::JumpZero(3),
            push(1),
            Op::Jump(2),
            push(0),
        ]
    );
}

#[test]
fn call_pushes_the_function_and_then_the_arguments() {
    let call = Expr::Call { func: Box::new(Expr::ModuleRef), args: vec![lit(1), lit(2)] };
    assert_eq!(compiled(call), vec![Op::StackLoad(0), push(1), push(2), Op::Call(2)]);
}

#[test]
fn expression_reports_its_variables_in_order() {
    let e = Expr::Call {
        func: Box::new(var(3)),
        args: vec![binary(BinaryOpType::Add, var(1), var(3)), Expr::ListCreate(vec![var(2)])],
    };
    let found: Vec<Var> = e.find_vars().iter().map(|s| s.inner).collect();
    assert_eq!(found, vec![3, 1, 3, 2]);
    assert!(lit(1).find_vars().is_empty());
}

#[test]
fn loop_jumps_back_to_its_condition_and_out_to_its_end() {
    let ops = compiled_body(vec![Statement::Loop(Loop {
        condition: Some(lit(1)),
        label: None,
        body: vec![Statement::Continue { label: None }, Statement::Break { label: None }],
    })]);
    assert_eq!(ops, vec![push(1), Op::JumpZero(4), Op::Jump(-2), Op::Jump(2), Op::Jump(-4)]);
}

#[test]
fn break_with_a_name_leaves_the_loop_of_that_name() {
    let ops = compiled_body(vec![Statement::Loop(Loop {
        condition: None,
        label: Some(1),
        body: vec![Statement::Loop(Loop {
            condition: None,
            label: Some(2),
            body: vec![Statement::Break { label: Some(1) }, Statement::Break { label: None }],
        })],
    })]);
    assert_eq!(ops, vec![Op::Jump(4), Op::Jump(2), Op::Jump(-2), Op::Jump(-3)]);
}

#[test]
fn if_else_jumps_from_each_branch_to_the_end() {
    let ops = compiled_body(vec![Statement::IfElse(IfElse {
        if_: If { condition: lit(1), body: vec![Statement::Expr(lit(10))] },
        else_if: vec![If { condition: lit(2), body: vec![Statement::Expr(lit(20))] }],
        else_: vec![Statement::Expr(lit(30))],
    })]);
    assert_eq!(
        ops,
        vec![
            push(1),
            Op::JumpZero(4),
            push(10),
            Op::StackPop,
            Op::Jump(8),
            push(2),
            Op::JumpZero(4),
            push(20),
            Op::StackPop,
            Op::Jump(3),
            push(30),
            Op::StackPop,
        ]
    );
}

#[test]
fn assignment_stores_to_a_variable_or_sets_in_a_sequence() {
    let ops = compiled_body(vec![
        Statement::BindVar(0),
        assign(0, Expr::ListCreate(vec![lit(1)])),
        Statement::Assign {
            place: Box::new(Expr::SeqIndex { seq: Box::new(var(0)), index: Box::new(lit(0)) }),
            value: Box::new(lit(2)),
        },
    ]);
    assert_eq!(
        ops,
        vec![
            push(1),
            Op::ListCreate(1),
            Op::StackStore(1),
            Op::StackLoad(1),
            push(0),
            push(2),
            Op::SeqSet,
        ]
    );
}

#[test]
fn arguments_are_stored_in_the_order_in_which_they_are_declared() {
    let f = Function {
        args: vec![7, 8],
        body: vec![Statement::Return(binary(BinaryOpType::Sub, var(7), var(8)))],
    };
    assert_eq!(
        f.compile().ops,
        vec![
            Op::StackStore(1),
            Op::StackStore(2),
            Op::StackLoad(1),
            Op::StackLoad(2),
            Op::Sub,
            Op::Return,
        ]
    );
}

#[test]
fn slot_of_a_variable_is_free_for_reuse_after_its_last_use() {
    let ops = compiled_body(vec![
        Statement::BindVar(0),
        assign(0, lit(1)),
        Statement::Expr(var(0)),
        Statement::BindVar(1),
        assign(1, lit(2)),
        Statement::Expr(var(1)),
    ]);
    assert_eq!(
        ops,
        vec![
            push(1),
            Op::StackStore(1),
            Op::StackLoad(1),
            Op::StackPop,
            push(2),
            Op::StackStore(1),
            Op::StackLoad(1),
            Op::StackPop,
        ]
    );
}

fn drops_after_analysis(body: Vec<Statement>) -> Vec<String> {
    fn show(s: &Statement) -> String {
        match s {
            Statement::BindVar(v) => format!("bind {}", v),
            Statement::DropVar(v) => format!("drop {}", v),
            Statement::InitVar(v) => format!("init {}", v),
            Statement::Loop(l) => {
                format!("loop [{}]", l.body.iter().map(show).collect::<Vec<_>>().join(", "))
            }
            Statement::IfElse(s) => format!(
                "if [{}] else [{}]",
                s.if_.body.iter().map(show).collect::<Vec<_>>().join(", "),
                s.else_.iter().map(show).collect::<Vec<_>>().join(", ")
            ),
            Statement::Expr(_) => String::from("expr"),
            Statement::Return(_) => String::from("return"),
            Statement::Assign { .. } => String::from("assign"),
            _ => String::from("other"),
        }
    }
    let mut f = Function { args: vec![], body };
    assert!(f.block_scope_analysis().is_ok());
    f.body.iter().map(show).collect()
}

#[test]
fn drop_is_put_right_behind_the_last_use_in_the_block_that_binds() {
    let out = drops_after_analysis(vec![
        Statement::BindVar(0),
        assign(0, lit(1)),
        Statement::BindVar(1),
        assign(1, lit(2)),
        Statement::Expr(var(0)),
        Statement::Expr(var(1)),
    ]);
    assert_eq!(
        out,
        vec!["bind 0", "assign", "bind 1", "assign", "expr", "drop 0", "expr", "drop 1"]
    );
}

#[test]
fn use_in_an_inner_block_counts_for_the_statement_that_holds_the_block() {
    let out = drops_after_analysis(vec![
        Statement::BindVar(0),
        assign(0, lit(1)),
        Statement::Loop(Loop {
            condition: None,
            label: None,
            body: vec![
                Statement::BindVar(1),
                assign(1, var(0)),
                Statement::Expr(var(1)),
                Statement::Break { label: None },
            ],
        }),
        Statement::Expr(lit(3)),
    ]);
    assert_eq!(
        out,
        vec!["bind 0", "assign", "loop [bind 1, assign, expr, drop 1, other]", "drop 0", "expr"]
    );
}

#[test]
fn two_last_uses_in_one_statement_are_dropped_in_the_order_of_the_uses() {
    let out = drops_after_analysis(vec![
        Statement::BindVar(0),
        Statement::BindVar(1),
        assign(0, lit(1)),
        assign(1, lit(1)),
        Statement::Expr(binary(BinaryOpType::Add, var(1), var(0))),
    ]);
    assert_eq!(out, vec!["bind 0", "bind 1", "assign", "assign", "expr", "drop 1", "drop 0"]);
}

#[test]
fn variable_that_no_block_binds_is_reported() {
    let mut f = Function { args: vec![], body: vec![Statement::Expr(var(4))] };
    assert_eq!(f.block_scope_analysis(), Err(vec![4]));
}

#[test]
fn analysis_of_a_block_without_variables_changes_nothing_however_often_it_runs() {
    let body = || {
        vec![
            Statement::Expr(lit(1)),
            Statement::Loop(Loop {
                condition: None,
                label: None,
                body: vec![Statement::Break { label: None }],
            }),
        ]
    };
    let once = drops_after_analysis(body());
    let mut f = Function { args: vec![], body: body() };
    assert!(f.block_scope_analysis().is_ok());
    assert!(f.block_scope_analysis().is_ok());
    let twice: Vec<bool> = f.body.iter().map(|s| matches!(s, Statement::DropVar(_))).collect();
    assert_eq!(once, vec!["expr", "loop [other]"]);
    assert_eq!(twice, vec![false, false]);
}

#[test]
fn walk_notes_each_variable_at_its_first_meeting() {
    let mut seen = BTreeSet::new();
    let mut walk = BlockScopeAnalysis::new();
    walk.process_var(&mut seen, 3);
    walk.process_var(&mut seen, 5);
    walk.process_var(&mut seen, 3);
    walk.process_expr(&mut seen, &binary(BinaryOpType::Add, var(5), var(6)));
    assert_eq!(walk.deferred, vec![3, 5, 6]);
    assert_eq!(seen.into_iter().collect::<Vec<_>>(), vec![3, 5, 6]);
}

fn try_compiled(body: Vec<Statement>) -> Option<Vec<Op>> {
    (Function { args: vec![], body }).try_compile().map(|f| f.ops)
}

fn endless(label: Option<usize>, body: Vec<Statement>) -> Statement {
    Statement::Loop(Loop { condition: None, label, body })
}

fn branch(condition: Expr, body: Vec<Statement>) -> If {
    If { condition, body }
}

fn many(n: usize) -> Vec<Expr> {
    (0..n).map(|i| lit(i as i64)).collect()
}

#[test]
fn vector_is_turned_round() {
    assert_eq!(reversed(vec![1, 2, 3]), vec![3, 2, 1]);
    assert_eq!(reversed(vec!["a"]), vec!["a"]);
    assert_eq!(reversed(Vec::<u8>::new()), Vec::<u8>::new());
}

#[test]
fn checked_compilation_gives_what_compilation_gives() {
    let body = || {
        vec![
            Statement::BindVar(7),
            assign(7, lit(0)),
            Statement::Loop(Loop {
                condition: Some(binary(BinaryOpType::Less, var(7), lit(3))),
                label: Some(1),
                body: vec![
                    assign(7, binary(BinaryOpType::Add, var(7), lit(1))),
                    Statement::IfElse(IfElse {
                        if_: branch(var(7), vec![Statement::Continue { label: Some(1) }]),
                        else_if: vec![branch(lit(0), vec![Statement::Break { label: None }])],
                        else_: vec![Statement::Expr(lit(9))],
                    }),
                ],
            }),
            Statement::Return(var(7)),
        ]
    };
    let checked = try_compiled(body());
    assert_eq!(checked, Some(compiled_body(body())));
    assert_eq!(try_compiled(vec![]), Some(vec![]));
    assert_eq!(
        try_compiled(vec![Statement::Return(binary(BinaryOpType::Add, lit(1), lit(2)))]),
        Some(vec![push(1), push(2), Op::Add, Op::Return])
    );
}

#[test]
fn checked_compilation_receives_the_arguments() {
    let f = Function {
        args: vec![4, 5],
        body: vec![Statement::Return(binary(BinaryOpType::Sub, var(4), var(5)))],
    };
    assert_eq!(
        f.try_compile().map(|f| f.ops),
        Some(vec![
            Op::StackStore(1),
            Op::StackStore(2),
            Op::StackLoad(1),
            Op::StackLoad(2),
            Op::Sub,
            Op::Return,
        ])
    );
    let twice = Function { args: vec![4, 4], body: vec![Statement::Return(var(4))] };
    assert_eq!(twice.try_compile(), None);
}

#[test]
fn variable_that_no_block_binds_is_refused() {
    assert_eq!(try_compiled(vec![Statement::Return(var(3))]), None);
    assert_eq!(try_compiled(vec![assign(3, lit(1))]), None);
    assert_eq!(try_compiled(vec![Statement::InitVar(3)]), None);
    // Bound in an inner block, used in the outer one.
    assert_eq!(
        try_compiled(vec![
            endless(None, vec![Statement::BindVar(3), Statement::Break { label: None }]),
            Statement::Return(var(3)),
        ]),
        None
    );
    assert!(try_compiled(vec![Statement::BindVar(3), assign(3, lit(1))]).is_some());
}

#[test]
fn variable_that_is_read_before_it_is_bound_is_refused() {
    assert_eq!(
        try_compiled(vec![Statement::Expr(var(3)), Statement::BindVar(3), assign(3, lit(1))]),
        None
    );
}

#[test]
fn variable_that_is_bound_while_it_is_bound_is_refused() {
    assert_eq!(
        try_compiled(vec![
            Statement::BindVar(1),
            assign(1, lit(1)),
            Statement::BindVar(1),
            assign(1, lit(2)),
        ]),
        None
    );
}

#[test]
fn break_and_continue_need_their_loop() {
    assert_eq!(try_compiled(vec![Statement::Break { label: None }]), None);
    assert_eq!(try_compiled(vec![Statement::Continue { label: None }]), None);
    assert_eq!(try_compiled(vec![endless(Some(1), vec![Statement::Break { label: Some(2) }])]), None);
    assert_eq!(
        try_compiled(vec![endless(Some(1), vec![Statement::Continue { label: Some(2) }])]),
        None
    );
    // The name of a loop is gone behind the loop.
    assert_eq!(
        try_compiled(vec![
            endless(Some(1), vec![Statement::Break { label: None }]),
            endless(None, vec![Statement::Break { label: Some(1) }]),
        ]),
        None
    );
    assert_eq!(
        try_compiled(vec![endless(Some(1), vec![Statement::Break { label: Some(1) }])]),
        Some(vec![Op::Jump(2), Op::Jump(-1)])
    );
}

#[test]
fn loop_under_a_name_that_is_in_use_is_refused() {
    let inner = endless(Some(1), vec![Statement::Break { label: None }]);
    assert_eq!(try_compiled(vec![endless(Some(1), vec![inner])]), None);
    let one = endless(Some(1), vec![Statement::Break { label: None }]);
    let other = endless(Some(1), vec![Statement::Break { label: None }]);
    assert!(try_compiled(vec![one, other]).is_some());
}

#[test]
fn assignment_to_what_is_no_place_is_refused() {
    let to = |place: Expr| Statement::Assign { place: Box::new(place), value: Box::new(lit(1)) };
    assert_eq!(try_compiled(vec![to(lit(0))]), None);
    assert_eq!(try_compiled(vec![to(Expr::ModuleRef)]), None);
    assert_eq!(try_compiled(vec![to(Expr::SeqLen { seq: Box::new(Expr::ModuleRef) })]), None);
    assert_eq!(
        try_compiled(vec![to(Expr::SeqIndex {
            seq: Box::new(Expr::ModuleRef),
            index: Box::new(lit(0)),
        })]),
        Some(vec![Op::StackLoad(0), push(0), push(1), Op::SeqSet])
    );
}

#[test]
fn drop_in_the_body_is_refused() {
    assert_eq!(try_compiled(vec![Statement::BindVar(1), Statement::DropVar(1)]), None);
    assert_eq!(
        try_compiled(vec![
            Statement::BindVar(1),
            endless(None, vec![Statement::DropVar(1), Statement::Break { label: None }]),
        ]),
        None
    );
}

#[test]
fn drops_are_found_in_every_block() {
    let plain = vec![Statement::BindVar(1), Statement::Expr(lit(1))];
    assert!(block_has_no_drops(&plain));
    assert!(block_has_no_drops(&vec![]));
    assert!(!block_has_no_drops(&vec![Statement::Expr(lit(1)), Statement::DropVar(1)]));
    assert!(!Statement::DropVar(1).has_no_drops());
    assert!(Statement::BindVar(1).has_no_drops());
    assert!(!endless(None, vec![Statement::DropVar(1)]).has_no_drops());
    let with = |first: Vec<Statement>, second: Vec<Statement>, third: Vec<Statement>, last| {
        Statement::IfElse(IfElse {
            if_: branch(lit(1), first),
            else_if: vec![branch(lit(2), second), branch(lit(3), third)],
            else_: last,
        })
    };
    let drop = || vec![Statement::DropVar(1)];
    assert!(with(vec![], vec![], vec![], vec![]).has_no_drops());
    assert!(!with(drop(), vec![], vec![], vec![]).has_no_drops());
    assert!(!with(vec![], drop(), vec![], vec![]).has_no_drops());
    assert!(!with(vec![], vec![], drop(), vec![]).has_no_drops());
    assert!(!with(vec![], vec![], vec![], drop()).has_no_drops());
    assert!(ifs_have_no_drops(&vec![branch(lit(1), vec![]), branch(lit(2), vec![])]));
    assert!(!ifs_have_no_drops(&vec![branch(lit(1), vec![]), branch(lit(2), drop())]));
}

#[test]
fn more_than_255_parts_are_refused() {
    let call = |n: usize| Expr::Call { func: Box::new(Expr::ModuleRef), args: many(n) };
    let g = CodeGenerator::new();
    assert!(call(255).is_compilable(&g));
    assert!(!call(256).is_compilable(&g));
    assert!(Expr::TupleCreate(many(255)).is_compilable(&g));
    assert!(!Expr::TupleCreate(many(256)).is_compilable(&g));
    assert!(Expr::ListCreate(many(255)).is_compilable(&g));
    assert!(!Expr::ListCreate(many(256)).is_compilable(&g));
    assert_eq!(try_compiled(vec![Statement::Return(Expr::TupleCreate(many(256)))]), None);
    let ops = try_compiled(vec![Statement::Return(Expr::TupleCreate(many(255)))]);
    assert_eq!(ops.map(|ops| ops[255..].to_vec()), Some(vec![Op::TupleCreate(255), Op::Return]));
}

#[test]
fn expression_can_be_lowered_where_its_variables_are_bound() {
    let mut g = CodeGenerator::new();
    let e = binary(BinaryOpType::Add, var(1), Expr::SeqLen { seq: Box::new(var(2)) });
    assert!(!e.is_compilable(&g));
    g.bind_var(1);
    assert!(!e.is_compilable(&g));
    g.bind_var(2);
    assert!(e.is_compilable(&g));
    g.drop_var(1);
    assert!(!e.is_compilable(&g));
    assert!(lit(1).is_compilable(&g));
    assert!(Expr::ModuleRef.is_compilable(&g));
    let bad_argument = Expr::Call { func: Box::new(var(2)), args: vec![lit(1), var(1)] };
    assert!(!bad_argument.is_compilable(&g));
}

#[test]
fn only_254_variables_live_at_once() {
    let body = |n: usize| {
        let mut body: Vec<Statement> = (0..n).map(Statement::BindVar).collect();
        body.extend((0..n).map(|v| assign(v, lit(0))));
        body
    };
    assert!(try_compiled(body(254)).is_some());
    assert_eq!(try_compiled(body(255)), None);
}

#[test]
fn generator_answers_what_it_could_do_next() {
    let mut g = CodeGenerator::new();
    assert_eq!((g.len(), g.label_count()), (0, 0));
    assert!(g.can_bind(5));
    assert!(!g.is_bound(5));
    g.bind_var(5);
    assert!(!g.can_bind(5));
    assert!(g.is_bound(5));
    assert!(g.can_enter(Some(1)));
    assert!(g.can_enter(None));
    assert_eq!(g.find_loop(None), None);
    assert_eq!(g.find_loop(Some(1)), None);
    g.loop_enter(Some(1));
    g.loop_enter(None);
    assert!(!g.can_enter(Some(1)));
    assert!(g.can_enter(Some(2)));
    assert_eq!(g.find_loop(Some(1)), Some((0, 1)));
    assert_eq!(g.find_loop(None), Some((2, 3)));
    assert_eq!(g.find_loop(Some(2)), None);
    g.push(Op::StackCopy);
    assert_eq!((g.len(), g.label_count()), (1, 4));
    g.loop_exit(None);
    g.loop_exit(Some(1));
    assert_eq!(g.find_loop(None), None);
    assert!(g.can_enter(Some(1)));
    for v in 0..253 {
        g.bind_var(100 + v);
    }
    assert!(!g.can_bind(6));
    g.drop_var(5);
    assert!(g.can_bind(6));
}

#[test]
fn statement_says_whether_it_was_lowered() {
    let mut g = CodeGenerator::new();
    assert!(!Statement::Expr(var(1)).try_compile(&mut g));
    assert!(!Statement::DropVar(1).try_compile(&mut g));
    assert!(!Statement::InitVar(1).try_compile(&mut g));
    assert!(Statement::BindVar(1).try_compile(&mut g));
    assert!(!Statement::BindVar(1).try_compile(&mut g));
    assert!(Statement::Expr(var(1)).try_compile(&mut g));
    assert!(!Statement::SeqAppend { seq: Box::new(var(1)), src: Box::new(var(2)) }
        .try_compile(&mut g));
    assert!(Statement::SeqAppend { seq: Box::new(var(1)), src: Box::new(var(1)) }
        .try_compile(&mut g));
    assert!(!Statement::SeqResize { seq: Box::new(var(2)), len: Box::new(lit(1)) }
        .try_compile(&mut g));
    assert!(!Statement::ListPush { list: Box::new(var(1)), value: Box::new(var(2)) }
        .try_compile(&mut g));
    assert!(!Statement::Return(var(2)).try_compile(&mut g));
    assert!(Statement::DropVar(1).try_compile(&mut g));
    assert!(!Statement::Expr(var(1)).try_compile(&mut g));
    assert_eq!(
        g.into_vec(),
        vec![
            Op::StackLoad(1),
            Op::StackPop,
            Op::StackLoad(1),
            Op::StackLoad(1),
            Op::SeqAppend
        ]
    );
}

#[test]
fn block_stops_at_the_first_statement_that_cannot_be_lowered() {
    let mut g = CodeGenerator::new();
    let block = vec![
        Statement::Expr(lit(1)),
        Statement::Break { label: None },
        Statement::Expr(lit(2)),
    ];
    assert!(!try_compile_block(&block, &mut g));
    assert_eq!(g.into_vec(), vec![push(1), Op::StackPop]);
    let mut g = CodeGenerator::new();
    assert!(try_compile_block(&vec![Statement::Expr(lit(1)), Statement::Expr(lit(2))], &mut g));
    assert_eq!(g.into_vec(), vec![push(1), Op::StackPop, push(2), Op::StackPop]);
}

#[test]
fn branch_needs_the_label_behind_the_whole_statement() {
    let mut g = CodeGenerator::new();
    assert!(!branch(lit(1), vec![]).try_compile(&mut g, 0));
    let end = g.create_label();
    assert!(!branch(var(1), vec![]).try_compile(&mut g, end));
    assert!(!branch(lit(1), vec![Statement::Break { label: None }]).try_compile(&mut g, end));
    let mut g = CodeGenerator::new();
    let end = g.create_label();
    assert!(branch(lit(1), vec![Statement::Expr(lit(2))]).try_compile(&mut g, end));
    g.label_here(end);
    assert_eq!(
        g.into_vec(),
        vec![push(1), Op::JumpZero(4), push(2), Op::StackPop, Op::Jump(1)]
    );
}

#[test]
fn if_else_is_refused_for_a_fault_in_any_of_its_parts() {
    let with = |first: Expr, second: Expr, third: Vec<Statement>, last: Vec<Statement>| {
        try_compiled(vec![Statement::IfElse(IfElse {
            if_: branch(first, vec![]),
            else_if: vec![branch(second, vec![]), branch(lit(3), third)],
            else_: last,
        })])
    };
    let fault = || vec![Statement::Break { label: None }];
    assert!(with(lit(1), lit(2), vec![], vec![]).is_some());
    assert_eq!(with(var(9), lit(2), vec![], vec![]), None);
    assert_eq!(with(lit(1), var(9), vec![], vec![]), None);
    assert_eq!(with(lit(1), lit(2), fault(), vec![]), None);
    assert_eq!(with(lit(1), lit(2), vec![], fault()), None);
}

#[test]
fn loop_is_refused_for_a_fault_in_its_condition_or_its_body() {
    let with = |condition: Option<Expr>, body: Vec<Statement>| {
        try_compiled(vec![Statement::Loop(Loop { condition, label: None, body })])
    };
    assert!(with(Some(lit(1)), vec![]).is_some());
    assert_eq!(with(Some(var(9)), vec![]), None);
    assert_eq!(with(None, vec![Statement::Break { label: Some(4) }]), None);
    assert_eq!(with(None, vec![Statement::InitVar(9)]), None);
}

#[test]
fn module_is_compiled_only_if_each_function_in_it_can_be() {
    let good = || ModuleItem::Function(Function { args: vec![], body: vec![Statement::Return(lit(1))] });
    let bad = || ModuleItem::Function(Function { args: vec![], body: vec![Statement::Break { label: None }] });
    let module = Module {
        items: vec![
            ModuleItem::LiteralValue(LiteralValue::Integer(5)),
            good(),
            ModuleItem::Buffer(vec![1, 2]),
            ModuleItem::ModuleRef(0),
        ],
    };
    let expected = bytecode::Module {
        items: vec![
            bytecode::ModuleItem::LiteralValue(LiteralValue::Integer(5)),
            bytecode::ModuleItem::Function(bytecode::Function { ops: vec![push(1), Op::Return] }),
            bytecode::ModuleItem::Buffer(vec![1, 2]),
            bytecode::ModuleItem::ModuleRef(0),
        ],
    };
    assert_eq!(module.try_compile(), Some(expected));
    assert_eq!(Module { items: vec![good(), bad(), good()] }.try_compile(), None);
    assert_eq!(Module { items: vec![] }.try_compile(), Some(bytecode::Module { items: vec![] }));
    assert_eq!(bad().try_compile(), None);
    assert_eq!(
        good().try_compile(),
        Some(bytecode::ModuleItem::Function(bytecode::Function { ops: vec![push(1), Op::Return] }))
    );
    let program = Program {
        modules: vec![Module { items: vec![good()] }, Module { items: vec![ModuleItem::ModuleRef(0)] }],
    };
    let both = bytecode::Program {
        modules: vec![
            bytecode::Module {
                items: vec![bytecode::ModuleItem::Function(bytecode::Function {
                    ops: vec![push(1), Op::Return],
                })],
            },
            bytecode::Module { items: vec![bytecode::ModuleItem::ModuleRef(0)] },
        ],
    };
    assert_eq!(program.try_compile(), Some(both));
    let faulty = Program { modules: vec![Module { items: vec![good()] }, Module { items: vec![bad()] }] };
    assert_eq!(faulty.try_compile(), None);
}
