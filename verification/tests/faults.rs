use rust_interpreter::bytecode::ByteCode;
use rust_interpreter::bytecode_interpreter::ByteCodeInterpreter;
use rust_interpreter::machine::{Progress, Trap};
use rust_interpreter::threaded::ByteCodeInterpreterThreaded;

const STEPS: u64 = 1_000_000;

fn run_both(insts: &Vec<ByteCode>) -> (Result<Progress, Trap>, Result<Progress, Trap>) {
    let mut stack_engine = ByteCodeInterpreter::new();
    let stack_result = stack_engine.interpret(insts, STEPS);
    assert_eq!(stack_engine.output().len(), 0);
    let mut threaded_engine = ByteCodeInterpreterThreaded::new(insts);
    let threaded_result = threaded_engine.start(STEPS);
    assert_eq!(threaded_engine.output().len(), 0);
    (stack_result, threaded_result)
}

#[test]
fn underflow_on_first_pop_aborts_deterministically() {
    let (stack_result, threaded_result) = run_both(&vec![ByteCode::Pop]);
    assert_eq!(stack_result, Err(Trap::StackUnderflow));
    assert_eq!(threaded_result, Err(Trap::StackUnderflow));
}

#[test]
fn underflow_on_first_add_aborts_deterministically() {
    let (stack_result, threaded_result) = run_both(&vec![ByteCode::Add]);
    assert_eq!(stack_result, Err(Trap::StackUnderflow));
    assert_eq!(threaded_result, Err(Trap::StackUnderflow));
}

#[test]
fn underflow_with_one_operand_left() {
    let (stack_result, threaded_result) = run_both(&vec![ByteCode::Push(1), ByteCode::Mul]);
    assert_eq!(stack_result, Err(Trap::StackUnderflow));
    assert_eq!(threaded_result, Err(Trap::StackUnderflow));
}

#[test]
fn reading_unassigned_variable_aborts() {
    let (stack_result, threaded_result) = run_both(&vec![ByteCode::Var("x".to_string())]);
    assert_eq!(stack_result, Err(Trap::UndefinedVariable));
    assert_eq!(threaded_result, Err(Trap::UndefinedVariable));
}

#[test]
fn remainder_by_zero_aborts() {
    let (stack_result, threaded_result) = run_both(&vec![
        ByteCode::Push(5),
        ByteCode::Push(0),
        ByteCode::Mod,
    ]);
    assert_eq!(stack_result, Err(Trap::ModuloByZero));
    assert_eq!(threaded_result, Err(Trap::ModuloByZero));
}

#[test]
fn jump_before_the_start_aborts() {
    let (stack_result, threaded_result) = run_both(&vec![ByteCode::Jmp {
        label: "back".to_string(),
        offset: -5,
    }]);
    assert_eq!(stack_result, Err(Trap::NegativeJump));
    assert_eq!(threaded_result, Err(Trap::NegativeJump));
}

#[test]
fn jump_past_the_end_terminates_normally() {
    let insts = vec![
        ByteCode::Jmp { label: "far".to_string(), offset: 100 },
        ByteCode::Print,
    ];
    let mut stack_engine = ByteCodeInterpreter::new();
    assert_eq!(stack_engine.interpret(&insts, STEPS), Ok(Progress::Halted));
    assert_eq!(stack_engine.output().len(), 0);
    let mut threaded_engine = ByteCodeInterpreterThreaded::new(&insts);
    assert_eq!(threaded_engine.start(STEPS), Ok(Progress::Halted));
    assert_eq!(threaded_engine.output().len(), 0);
}

#[test]
fn non_terminating_program_runs_out_of_steps() {
    let insts = vec![
        ByteCode::Label("spin".to_string()),
        ByteCode::Jmp { label: "spin".to_string(), offset: -2 },
    ];
    let mut stack_engine = ByteCodeInterpreter::new();
    assert_eq!(stack_engine.interpret(&insts, 1000), Ok(Progress::OutOfSteps));
    let mut threaded_engine = ByteCodeInterpreterThreaded::new(&insts);
    assert_eq!(threaded_engine.start(1000), Ok(Progress::OutOfSteps));
}

#[test]
fn empty_program_halts_at_once() {
    let insts: Vec<ByteCode> = vec![];
    let mut stack_engine = ByteCodeInterpreter::new();
    assert_eq!(stack_engine.interpret(&insts, 0), Ok(Progress::Halted));
    let mut threaded_engine = ByteCodeInterpreterThreaded::new(&insts);
    assert_eq!(threaded_engine.start(0), Ok(Progress::Halted));
}

#[test]
fn output_before_a_fault_is_kept() {
    let insts = vec![
        ByteCode::Push(42),
        ByteCode::Print,
        ByteCode::Pop,
    ];
    let mut stack_engine = ByteCodeInterpreter::new();
    assert_eq!(stack_engine.interpret(&insts, STEPS), Err(Trap::StackUnderflow));
    assert_eq!(stack_engine.output(), &vec![42]);
    let mut threaded_engine = ByteCodeInterpreterThreaded::new(&insts);
    assert_eq!(threaded_engine.start(STEPS), Err(Trap::StackUnderflow));
    assert_eq!(threaded_engine.output(), &vec![42]);
}

#[test]
fn jnz_jumps_on_nonzero_and_falls_through_on_zero() {
    let program = |cond: u64| {
        vec![
            ByteCode::Push(9),
            ByteCode::Push(cond),
            ByteCode::JNz { label: "over".to_string(), offset: 1 },
            ByteCode::Print,
            ByteCode::Push(7),
            ByteCode::Print,
        ]
    };
    let taken = program(1);
    let mut stack_engine = ByteCodeInterpreter::new();
    assert_eq!(stack_engine.interpret(&taken, STEPS), Ok(Progress::Halted));
    assert_eq!(stack_engine.output(), &vec![7]);
    let mut threaded_engine = ByteCodeInterpreterThreaded::new(&taken);
    assert_eq!(threaded_engine.start(STEPS), Ok(Progress::Halted));
    assert_eq!(threaded_engine.output(), &vec![7]);

    let fallen_through = program(0);
    let mut stack_engine = ByteCodeInterpreter::new();
    assert_eq!(stack_engine.interpret(&fallen_through, STEPS), Ok(Progress::Halted));
    assert_eq!(stack_engine.output(), &vec![9, 7]);
    let mut threaded_engine = ByteCodeInterpreterThreaded::new(&fallen_through);
    assert_eq!(threaded_engine.start(STEPS), Ok(Progress::Halted));
    assert_eq!(threaded_engine.output(), &vec![9, 7]);
}

#[test]
fn superinstructions_execute_like_their_pairs() {
    let fused = vec![
        ByteCode::Push(5),
        ByteCode::PushAdd(3),
        ByteCode::Print,
        ByteCode::PushAssign { name: "a".to_string(), value: 9 },
        ByteCode::Push(10),
        ByteCode::AssignPushAdd { name: "b".to_string(), value: 4 },
    ];
    let plain = vec![
        ByteCode::Push(5),
        ByteCode::Push(3),
        ByteCode::Add,
        ByteCode::Print,
        ByteCode::Push(9),
        ByteCode::Assign("a".to_string()),
        ByteCode::Push(10),
        ByteCode::PushAdd(4),
        ByteCode::Assign("b".to_string()),
    ];
    let mut fused_engine = ByteCodeInterpreter::new();
    assert_eq!(fused_engine.interpret(&fused, STEPS), Ok(Progress::Halted));
    let mut plain_engine = ByteCodeInterpreter::new();
    assert_eq!(plain_engine.interpret(&plain, STEPS), Ok(Progress::Halted));
    assert_eq!(fused_engine.output(), plain_engine.output());
    assert_eq!(fused_engine.output(), &vec![8]);
    for name in ["a", "b"] {
        assert_eq!(
            fused_engine.get_variable(&name.to_string()),
            plain_engine.get_variable(&name.to_string()),
        );
    }
    assert_eq!(fused_engine.get_variable(&"a".to_string()), Some(9));
    assert_eq!(fused_engine.get_variable(&"b".to_string()), Some(14));
}
