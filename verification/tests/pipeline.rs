use rust_interpreter::ast::{BinOp, Expr, Stmt};
use rust_interpreter::bytecode::ByteCode;
use rust_interpreter::bytecode_interpreter::ByteCodeInterpreter;
use rust_interpreter::fusion::insert_superinstructions;
use rust_interpreter::generator::BytecodeGenerator;
use rust_interpreter::machine::Progress;
use rust_interpreter::resolver::resolve_labels;
use rust_interpreter::threaded::ByteCodeInterpreterThreaded;

const STEPS: u64 = 1_000_000;

fn num(n: u64) -> Expr {
    Expr::Number(n)
}

fn var(name: &str) -> Expr {
    Expr::Variable(name.to_string())
}

fn bin(left: Expr, op: BinOp, right: Expr) -> Expr {
    Expr::Binary { left: Box::new(left), op, right: Box::new(right) }
}

fn assign(name: &str, value: Expr) -> Stmt {
    Stmt::Expression(Expr::Assign { name: name.to_string(), value: Box::new(value) })
}

fn compile(statements: &Vec<Stmt>, fuse: bool) -> Vec<ByteCode> {
    let mut gen = BytecodeGenerator::new();
    let mut insts = gen.generate(statements);
    if fuse {
        insert_superinstructions(&mut insts);
    }
    resolve_labels(&mut insts).expect("every generated jump has its label");
    insts
}

fn run_stack(insts: &Vec<ByteCode>) -> ByteCodeInterpreter {
    let mut interp = ByteCodeInterpreter::new();
    let r = interp.interpret(insts, STEPS);
    assert_eq!(r, Ok(Progress::Halted));
    interp
}

fn run_threaded(insts: &Vec<ByteCode>) -> ByteCodeInterpreterThreaded {
    let mut interp = ByteCodeInterpreterThreaded::new(insts);
    let r = interp.start(STEPS);
    assert_eq!(r, Ok(Progress::Halted));
    interp
}

fn outputs(statements: &Vec<Stmt>, fuse: bool) -> (Vec<u64>, Vec<u64>) {
    let insts = compile(statements, fuse);
    let stack_engine = run_stack(&insts);
    let threaded_engine = run_threaded(&insts);
    (stack_engine.output().clone(), threaded_engine.output().clone())
}

/// `a := 10 + 5; print a; print a * 2; print a + 1 * 2;` — `*` binds
/// tighter than `+`, so the front end hands the last print as
/// `a + (1 * 2)`.
fn scenario_a_program() -> Vec<Stmt> {
    vec![
        assign("a", bin(num(10), BinOp::Add, num(5))),
        Stmt::Print(var("a")),
        Stmt::Print(bin(var("a"), BinOp::Mul, num(2))),
        Stmt::Print(bin(var("a"), BinOp::Add, bin(num(1), BinOp::Mul, num(2)))),
    ]
}

#[test]
fn scenario_arithmetic_precedence() {
    let (stack_out, threaded_out) = outputs(&scenario_a_program(), true);
    assert_eq!(stack_out, vec![15, 30, 17]);
    assert_eq!(threaded_out, vec![15, 30, 17]);
}

/// `a := 1; while a < 10 do a := a + 1; end print a;`
fn scenario_b_program() -> Vec<Stmt> {
    vec![
        assign("a", num(1)),
        Stmt::While {
            condition: bin(var("a"), BinOp::Lt, num(10)),
            body: Box::new(assign("a", bin(var("a"), BinOp::Add, num(1)))),
        },
        Stmt::Print(var("a")),
    ]
}

/// `a := 10; if a < 10 then print 1; else print 3; end`
fn scenario_c_program() -> Vec<Stmt> {
    vec![
        assign("a", num(10)),
        Stmt::If {
            condition: bin(var("a"), BinOp::Lt, num(10)),
            then_branch: Box::new(Stmt::Print(num(1))),
            else_branch: Some(Box::new(Stmt::Print(num(3)))),
        },
    ]
}

/// `a := 0; if 10 == 20 then a := 99; else a := 88; end`
fn scenario_d_program() -> Vec<Stmt> {
    vec![
        assign("a", num(0)),
        Stmt::If {
            condition: bin(num(10), BinOp::Eq, num(20)),
            then_branch: Box::new(assign("a", num(99))),
            else_branch: Some(Box::new(assign("a", num(88)))),
        },
    ]
}

#[test]
fn scenario_while_loop() {
    let (stack_out, threaded_out) = outputs(&scenario_b_program(), true);
    assert_eq!(stack_out, vec![10]);
    assert_eq!(threaded_out, vec![10]);
}

#[test]
fn scenario_if_false_takes_else() {
    let (stack_out, threaded_out) = outputs(&scenario_c_program(), true);
    assert_eq!(stack_out, vec![3]);
    assert_eq!(threaded_out, vec![3]);
}

#[test]
fn scenario_if_assigns_else_branch() {
    let insts = compile(&scenario_d_program(), true);
    let stack_engine = run_stack(&insts);
    let threaded_engine = run_threaded(&insts);
    assert_eq!(stack_engine.output().len(), 0);
    assert_eq!(threaded_engine.output().len(), 0);
    assert_eq!(stack_engine.get_variable(&"a".to_string()), Some(88));
    assert_eq!(threaded_engine.get_variable(&"a".to_string()), Some(88));
}

#[test]
fn fusion_is_transparent_on_each_scenario() {
    let programs = vec![
        scenario_a_program(),
        scenario_b_program(),
        scenario_c_program(),
        scenario_d_program(),
    ];
    for program in programs.iter() {
        let (plain_stack, plain_threaded) = outputs(program, false);
        let (fused_stack, fused_threaded) = outputs(program, true);
        assert_eq!(plain_stack, fused_stack);
        assert_eq!(plain_threaded, fused_threaded);
        assert_eq!(plain_stack, plain_threaded);
    }
}

#[test]
fn fusion_merges_adjacent_pairs_and_chains() {
    let mut insts = vec![
        ByteCode::Push(1),
        ByteCode::Push(2),
        ByteCode::Add,
        ByteCode::Assign("a".to_string()),
    ];
    insert_superinstructions(&mut insts);
    assert_eq!(
        insts,
        vec![
            ByteCode::Push(1),
            ByteCode::AssignPushAdd { name: "a".to_string(), value: 2 },
        ]
    );
}

#[test]
fn fusion_leaves_labels_alone() {
    let mut insts = vec![
        ByteCode::Push(1),
        ByteCode::Label("l".to_string()),
        ByteCode::Add,
    ];
    insert_superinstructions(&mut insts);
    assert_eq!(
        insts,
        vec![
            ByteCode::Push(1),
            ByteCode::Label("l".to_string()),
            ByteCode::Add,
        ]
    );
}

#[test]
fn resolver_sets_relative_offsets() {
    let mut insts = vec![
        ByteCode::Jz { label: "x".to_string(), offset: 0 },
        ByteCode::Push(1),
        ByteCode::Label("x".to_string()),
        ByteCode::Jmp { label: "x".to_string(), offset: 0 },
    ];
    assert!(resolve_labels(&mut insts).is_ok());
    assert_eq!(insts[0], ByteCode::Jz { label: "x".to_string(), offset: 2 });
    assert_eq!(insts[3], ByteCode::Jmp { label: "x".to_string(), offset: -1 });
}

#[test]
fn resolver_rejects_unknown_label() {
    let mut insts = vec![
        ByteCode::Push(1),
        ByteCode::Jz { label: "nowhere".to_string(), offset: 0 },
    ];
    let r = resolve_labels(&mut insts);
    assert!(r.is_err());
    assert_eq!(insts.len(), 2);
    assert_eq!(insts[0], ByteCode::Push(1));
    assert_eq!(insts[1], ByteCode::Jz { label: "nowhere".to_string(), offset: 0 });
}

#[test]
fn generator_emits_if_shape_with_fresh_labels() {
    let program = vec![Stmt::If {
        condition: Expr::Boolean(true),
        then_branch: Box::new(Stmt::Print(num(1))),
        else_branch: None,
    }];
    let mut gen = BytecodeGenerator::new();
    let insts = gen.generate(&program);
    assert_eq!(
        insts,
        vec![
            ByteCode::Push(1),
            ByteCode::Jz { label: "L_else_label1".to_string(), offset: 0 },
            ByteCode::Push(1),
            ByteCode::Print,
            ByteCode::Jmp { label: "L_end_of_if_label2".to_string(), offset: 0 },
            ByteCode::Label("L_else_label1".to_string()),
            ByteCode::Label("L_end_of_if_label2".to_string()),
        ]
    );
}

#[test]
fn generator_emits_while_shape_with_fresh_labels() {
    let program = vec![Stmt::While {
        condition: Expr::Boolean(false),
        body: Box::new(Stmt::Print(num(1))),
    }];
    let mut gen = BytecodeGenerator::new();
    let insts = gen.generate(&program);
    assert_eq!(
        insts,
        vec![
            ByteCode::Label("L_start_label0".to_string()),
            ByteCode::Push(0),
            ByteCode::Jz { label: "L_end_label1".to_string(), offset: 0 },
            ByteCode::Push(1),
            ByteCode::Print,
            ByteCode::Jmp { label: "L_start_label0".to_string(), offset: 0 },
            ByteCode::Label("L_end_label1".to_string()),
        ]
    );
}

#[test]
fn comparison_operators_push_zero_or_one() {
    let program = vec![
        Stmt::Print(bin(num(5), BinOp::Gt, num(3))),
        Stmt::Print(bin(num(3), BinOp::Gt, num(5))),
        Stmt::Print(bin(num(3), BinOp::Lt, num(5))),
        Stmt::Print(bin(num(5), BinOp::Lte, num(5))),
        Stmt::Print(bin(num(5), BinOp::Gte, num(6))),
        Stmt::Print(bin(num(4), BinOp::NEq, num(4))),
        Stmt::Print(bin(num(9), BinOp::Mod, num(4))),
        Stmt::Print(bin(num(7), BinOp::Sub, num(3))),
    ];
    let (stack_out, threaded_out) = outputs(&program, true);
    assert_eq!(stack_out, vec![1, 0, 1, 1, 0, 0, 1, 4]);
    assert_eq!(threaded_out, stack_out);
}

#[test]
fn logical_operators_recognise_one_as_true() {
    let program = vec![
        Stmt::Print(Expr::Logical {
            left: Box::new(Expr::Boolean(true)),
            op: rust_interpreter::ast::LogOp::And,
            right: Box::new(Expr::Boolean(false)),
        }),
        Stmt::Print(Expr::Logical {
            left: Box::new(Expr::Boolean(true)),
            op: rust_interpreter::ast::LogOp::Or,
            right: Box::new(Expr::Boolean(false)),
        }),
    ];
    let (stack_out, threaded_out) = outputs(&program, true);
    assert_eq!(stack_out, vec![0, 1]);
    assert_eq!(threaded_out, stack_out);
}

#[test]
fn latest_assignment_wins() {
    let program = vec![
        assign("a", num(1)),
        assign("a", num(2)),
        assign("b", num(7)),
    ];
    let insts = compile(&program, false);
    let engine = run_stack(&insts);
    assert_eq!(engine.get_variable(&"a".to_string()), Some(2));
    assert_eq!(engine.get_variable(&"b".to_string()), Some(7));
    assert_eq!(engine.get_variable(&"c".to_string()), None);
}

#[test]
fn addition_wraps_like_the_machine() {
    let insts = vec![ByteCode::Push(u64::MAX), ByteCode::Push(1), ByteCode::Add, ByteCode::Print];
    let engine = run_stack(&insts);
    assert_eq!(engine.output(), &vec![0]);
    let threaded_engine = run_threaded(&insts);
    assert_eq!(threaded_engine.output(), &vec![0]);
}
