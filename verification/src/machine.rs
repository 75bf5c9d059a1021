use vstd::prelude::*;

use crate::bytecode::ByteCode;

verus! {

/// A fatal fault of the bytecode path. Each one signals malformed
/// bytecode or a defective program, never a recoverable condition: the
/// caller is expected to abort.
#[derive(Clone, Copy, PartialEq, Eq, Structural, Debug)]
pub enum Trap {
    /// An instruction popped an empty operand stack.
    StackUnderflow,
    /// A variable was read before its first assignment.
    UndefinedVariable,
    /// `Mod` was asked for a remainder by zero.
    ModuloByZero,
    /// A jump moved the program counter before the start of the sequence.
    NegativeJump,
}

/// The whole observable state of one interpreter instance: the operand
/// stack, the global variable table, the program counter, and the values
/// printed so far, oldest first.
pub ghost struct MachineState {
    pub stack: Seq<u64>,
    pub vars: Map<Seq<char>, u64>,
    pub pc: int,
    pub output: Seq<u64>,
}

/// What one instruction does: either the next state, or a fault.
pub ghost enum StepResult {
    Next(MachineState),
    Fault(Trap),
}

/// The fresh state both engines start from.
pub open spec fn init_state() -> MachineState {
    MachineState { stack: Seq::empty(), vars: Map::empty(), pc: 0, output: Seq::empty() }
}

/// The opcodes that pop two operands and push one result.
pub open spec fn is_binop(i: ByteCode) -> bool {
    ||| i is Add
    ||| i is Sub
    ||| i is Mul
    ||| i is Mod
    ||| i is Eq
    ||| i is NEq
    ||| i is Lt
    ||| i is Gt
    ||| i is Lte
    ||| i is Gte
    ||| i is And
    ||| i is Or
}

/// The value a two-operand opcode pushes, for left operand `b` (pushed
/// first, so deeper on the stack) and right operand `a` (on top).
/// Arithmetic wraps modulo 2^64; comparisons and connectives push 0 or 1,
/// and the connectives recognise exactly 1 as true.
pub open spec fn binop_value(i: ByteCode, b: u64, a: u64) -> u64 {
    match i {
        ByteCode::Add => vstd::wrapping::u64_specs::wrapping_add(b, a),
        ByteCode::Sub => vstd::wrapping::u64_specs::wrapping_sub(b, a),
        ByteCode::Mul => vstd::wrapping::u64_specs::wrapping_mul(b, a),
        ByteCode::Mod => (b as int % a as int) as u64,
        ByteCode::Eq => if b == a { 1u64 } else { 0u64 },
        ByteCode::NEq => if b != a { 1u64 } else { 0u64 },
        ByteCode::Lt => if b < a { 1u64 } else { 0u64 },
        ByteCode::Gt => if b > a { 1u64 } else { 0u64 },
        ByteCode::Lte => if b <= a { 1u64 } else { 0u64 },
        ByteCode::Gte => if b >= a { 1u64 } else { 0u64 },
        ByteCode::And => if b == 1 && a == 1 { 1u64 } else { 0u64 },
        _ => if b == 1 || a == 1 { 1u64 } else { 0u64 },
    }
}

/// Where the program counter comes to rest after a jump: a target past the
/// end of the sequence terminates execution, so the counter stops at the
/// end itself.
pub open spec fn clamp_pc(t: int, len: nat) -> int {
    if t > len { len as int } else { t }
}

/// The single authoritative table of instruction effects. Both engines are
/// proved against this function, instruction by instruction.
///
/// The instruction at `s.pc` executes against state `s`. Every instruction
/// that pops requires a non-empty stack and faults otherwise; a jump adds
/// its offset to the program counter before the implicit advance by one,
/// and faults if the counter would become negative. A jump past the end of
/// the sequence is not a fault: execution then simply terminates.
pub open spec fn step(p: Seq<ByteCode>, s: MachineState) -> StepResult
    recommends
        0 <= s.pc < p.len(),
{
    let i = p[s.pc];
    if is_binop(i) {
        if s.stack.len() < 2 {
            StepResult::Fault(Trap::StackUnderflow)
        } else {
            let b = s.stack[s.stack.len() - 2];
            let a = s.stack[s.stack.len() - 1];
            if i is Mod && a == 0 {
                StepResult::Fault(Trap::ModuloByZero)
            } else {
                StepResult::Next(MachineState {
                    stack: s.stack.drop_last().drop_last().push(binop_value(i, b, a)),
                    pc: s.pc + 1,
                    ..s
                })
            }
        }
    } else {
        match i {
            ByteCode::Push(v) => StepResult::Next(MachineState {
                stack: s.stack.push(v),
                pc: s.pc + 1,
                ..s
            }),
            ByteCode::Pop => if s.stack.len() == 0 {
                StepResult::Fault(Trap::StackUnderflow)
            } else {
                StepResult::Next(MachineState { stack: s.stack.drop_last(), pc: s.pc + 1, ..s })
            },
            ByteCode::Var(name) => if s.vars.contains_key(name@) {
                StepResult::Next(MachineState {
                    stack: s.stack.push(s.vars[name@]),
                    pc: s.pc + 1,
                    ..s
                })
            } else {
                StepResult::Fault(Trap::UndefinedVariable)
            },
            ByteCode::Jz { label: _, offset } => if s.stack.len() == 0 {
                StepResult::Fault(Trap::StackUnderflow)
            } else {
                let t = if s.stack.last() == 0 {
                    s.pc + offset + 1
                } else {
                    s.pc + 1
                };
                if t < 0 {
                    StepResult::Fault(Trap::NegativeJump)
                } else {
                    StepResult::Next(MachineState {
                        stack: s.stack.drop_last(),
                        pc: clamp_pc(t, p.len()),
                        ..s
                    })
                }
            },
            ByteCode::JNz { label: _, offset } => if s.stack.len() == 0 {
                StepResult::Fault(Trap::StackUnderflow)
            } else {
                let t = if s.stack.last() != 0 {
                    s.pc + offset + 1
                } else {
                    s.pc + 1
                };
                if t < 0 {
                    StepResult::Fault(Trap::NegativeJump)
                } else {
                    StepResult::Next(MachineState {
                        stack: s.stack.drop_last(),
                        pc: clamp_pc(t, p.len()),
                        ..s
                    })
                }
            },
            ByteCode::Jmp { label: _, offset } => if s.pc + offset + 1 < 0 {
                StepResult::Fault(Trap::NegativeJump)
            } else {
                StepResult::Next(MachineState { pc: clamp_pc(s.pc + offset + 1, p.len()), ..s })
            },
            ByteCode::Label(_) => StepResult::Next(MachineState { pc: s.pc + 1, ..s }),
            ByteCode::Print => if s.stack.len() == 0 {
                StepResult::Fault(Trap::StackUnderflow)
            } else {
                StepResult::Next(MachineState {
                    stack: s.stack.drop_last(),
                    output: s.output.push(s.stack.last()),
                    pc: s.pc + 1,
                    ..s
                })
            },
            ByteCode::Assign(name) => if s.stack.len() == 0 {
                StepResult::Fault(Trap::StackUnderflow)
            } else {
                StepResult::Next(MachineState {
                    stack: s.stack.drop_last(),
                    vars: s.vars.insert(name@, s.stack.last()),
                    pc: s.pc + 1,
                    ..s
                })
            },
            ByteCode::PushAdd(v) => if s.stack.len() == 0 {
                StepResult::Fault(Trap::StackUnderflow)
            } else {
                StepResult::Next(MachineState {
                    stack: s.stack.drop_last().push(
                        vstd::wrapping::u64_specs::wrapping_add(s.stack.last(), v),
                    ),
                    pc: s.pc + 1,
                    ..s
                })
            },
            ByteCode::AssignPushAdd { name, value } => if s.stack.len() == 0 {
                StepResult::Fault(Trap::StackUnderflow)
            } else {
                StepResult::Next(MachineState {
                    stack: s.stack.drop_last(),
                    vars: s.vars.insert(
                        name@,
                        vstd::wrapping::u64_specs::wrapping_add(value, s.stack.last()),
                    ),
                    pc: s.pc + 1,
                    ..s
                })
            },
            ByteCode::PushAssign { name, value } => StepResult::Next(MachineState {
                vars: s.vars.insert(name@, value),
                pc: s.pc + 1,
                ..s
            }),
            // the two-operand opcodes were all handled before the match
            _ => StepResult::Fault(Trap::StackUnderflow),
        }
    }
}

/// How far an engine got within its step budget: the program ran to
/// completion, or the budget ran out first with the program still going.
/// A non-terminating source program runs for as many steps as it is given.
#[derive(Clone, Copy, PartialEq, Eq, Structural, Debug)]
pub enum Progress {
    Halted,
    OutOfSteps,
}

/// A running or faulted execution: `Going` while no fault has occurred,
/// `Stuck` with the trap and the state at the faulting instruction.
pub ghost enum Run {
    Going(MachineState),
    Stuck(Trap, MachineState),
}

/// The execution after at most `n` instructions from `s0`. A state whose
/// program counter has passed the end of the sequence is final and absorbs
/// further steps, as is a faulted execution.
pub open spec fn advance(p: Seq<ByteCode>, s0: MachineState, n: nat) -> Run
    decreases n,
{
    if n == 0 {
        Run::Going(s0)
    } else {
        match advance(p, s0, (n - 1) as nat) {
            Run::Going(s) => if s.pc >= p.len() {
                Run::Going(s)
            } else {
                match step(p, s) {
                    StepResult::Next(s2) => Run::Going(s2),
                    StepResult::Fault(t) => Run::Stuck(t, s),
                }
            },
            Run::Stuck(t, s) => Run::Stuck(t, s),
        }
    }
}

/// Whether an execution has come to rest: terminated normally, or faulted.
pub open spec fn settled(p: Seq<ByteCode>, r: Run) -> bool {
    match r {
        Run::Going(s) => s.pc >= p.len(),
        Run::Stuck(_, _) => true,
    }
}

/// Execution of `p` from `s0` comes to rest exactly at `r`.
pub open spec fn runs_to(p: Seq<ByteCode>, s0: MachineState, r: Run) -> bool {
    &&& settled(p, r)
    &&& exists|n: nat| advance(p, s0, n) == r
}

/// A settled execution absorbs further steps.
pub proof fn lemma_advance_stable(p: Seq<ByteCode>, s0: MachineState, n: nat, m: nat)
    requires
        n <= m,
        settled(p, advance(p, s0, n)),
    ensures
        advance(p, s0, m) == advance(p, s0, n),
    decreases m,
{
    if m > n {
        lemma_advance_stable(p, s0, n, (m - 1) as nat);
    }
}

/// Execution is deterministic: from one starting state, a program comes to
/// rest in at most one way. Because both engines are proved to come to rest
/// at the spec-level execution of the same program, this law is the
/// cross-engine equivalence: whenever the central-loop engine and the
/// handler-chaining engine both finish, they leave identical final variable
/// tables, identical printed output, and the same fault if any.
pub proof fn lemma_execution_deterministic(
    p: Seq<ByteCode>,
    s0: MachineState,
    r1: Run,
    r2: Run,
)
    requires
        runs_to(p, s0, r1),
        runs_to(p, s0, r2),
    ensures
        r1 == r2,
{
    let n1 = choose|n: nat| advance(p, s0, n) == r1;
    let n2 = choose|n: nat| advance(p, s0, n) == r2;
    if n1 <= n2 {
        lemma_advance_stable(p, s0, n1, n2);
    } else {
        lemma_advance_stable(p, s0, n2, n1);
    }
}

/// Underflow determinism: a sequence whose first instruction pops the
/// empty stack comes to rest at once, stuck on a stack underflow, with no
/// output produced and no variable written — never at a silently wrong
/// value.
pub proof fn lemma_underflow_deterministic(p: Seq<ByteCode>)
    requires
        p.len() > 0,
        pops_first(p[0]),
    ensures
        runs_to(p, init_state(), Run::Stuck(Trap::StackUnderflow, init_state())),
{
    let s = init_state();
    assert(advance(p, s, 0) == Run::Going(s));
    assert(step(p, s) == StepResult::Fault(Trap::StackUnderflow));
    assert(advance(p, s, 1) == Run::Stuck(Trap::StackUnderflow, s));
}

/// The opcodes whose first action is to pop the operand stack.
pub open spec fn pops_first(i: ByteCode) -> bool {
    ||| is_binop(i)
    ||| i is Pop
    ||| i is Jz
    ||| i is JNz
    ||| i is Print
    ||| i is Assign
    ||| i is PushAdd
    ||| i is AssignPushAdd
}

/// The ghost image of a program determines each of its steps: two
/// programs with one image execute alike, whatever distinct `String`
/// values spell their names. The semantics reads names only through
/// their views, so a contract that pins a program's image — as the code
/// generator's does — pins its execution.
pub proof fn lemma_view_determines_step(p1: Seq<ByteCode>, p2: Seq<ByteCode>, s: MachineState)
    requires
        crate::bytecode::view_program(p1) == crate::bytecode::view_program(p2),
        0 <= s.pc < p1.len(),
    ensures
        step(p1, s) == step(p2, s),
{
    assert(p1.len() == p2.len()) by {
        assert(crate::bytecode::view_program(p1).len() == p1.len());
        assert(crate::bytecode::view_program(p2).len() == p2.len());
    }
    assert(crate::bytecode::view_program(p1)[s.pc] == p1[s.pc]@);
    assert(crate::bytecode::view_program(p2)[s.pc] == p2[s.pc]@);
    assert(p1[s.pc]@ == p2[s.pc]@);
}

/// The ghost image of a program determines its whole run.
pub proof fn lemma_view_determines_advance(
    p1: Seq<ByteCode>,
    p2: Seq<ByteCode>,
    s0: MachineState,
    n: nat,
)
    requires
        crate::bytecode::view_program(p1) == crate::bytecode::view_program(p2),
        s0.pc >= 0,
    ensures
        advance(p1, s0, n) == advance(p2, s0, n),
    decreases n,
{
    assert(p1.len() == p2.len()) by {
        assert(crate::bytecode::view_program(p1).len() == p1.len());
        assert(crate::bytecode::view_program(p2).len() == p2.len());
    }
    if n > 0 {
        lemma_view_determines_advance(p1, p2, s0, (n - 1) as nat);
        match advance(p1, s0, (n - 1) as nat) {
            Run::Going(s) => {
                if s.pc < p1.len() && s.pc >= 0 {
                    lemma_view_determines_step(p1, p2, s);
                }
                if s.pc < 0 {
                    lemma_advance_nonnegative_pc(p1, s0, (n - 1) as nat);
                }
            },
            Run::Stuck(_, _) => {},
        }
    }
}

/// A run that starts at a non-negative program counter keeps it so:
/// a jump that would move it below zero faults instead.
proof fn lemma_advance_nonnegative_pc(p: Seq<ByteCode>, s0: MachineState, n: nat)
    requires
        s0.pc >= 0,
    ensures
        advance(p, s0, n) matches Run::Going(s) ==> s.pc >= 0,
    decreases n,
{
    if n > 0 {
        lemma_advance_nonnegative_pc(p, s0, (n - 1) as nat);
    }
}

/// What a run can be told apart by: the operand stack, the variable
/// table, and the printed output — everything of a state but the program
/// counter.
pub ghost struct Observables {
    pub stack: Seq<u64>,
    pub vars: Map<Seq<char>, u64>,
    pub output: Seq<u64>,
}

/// The observables of a machine state.
pub open spec fn observables(s: MachineState) -> Observables {
    Observables { stack: s.stack, vars: s.vars, output: s.output }
}

/// The jump opcodes: the only instructions whose effect depends on the
/// program counter, and the only ones the fusion pass never touches.
pub open spec fn is_jump(i: ByteCode) -> bool {
    i is Jz || i is JNz || i is Jmp
}

/// A sequence with no jump in it. `Label` markers are fine: they do
/// nothing at runtime.
pub open spec fn jump_free(p: Seq<ByteCode>) -> bool {
    forall|k: int| 0 <= k < p.len() ==> !is_jump(#[trigger] p[k])
}

/// The table of effects of `step`, restricted to the straight-line
/// opcodes and freed of the program counter; `lemma_step_effect` holds
/// the two tables together. On a jump the entry is meaningless and never
/// used.
pub open spec fn instr_effect(i: ByteCode, o: Observables) -> Result<Observables, Trap> {
    if is_binop(i) {
        if o.stack.len() < 2 {
            Err(Trap::StackUnderflow)
        } else {
            let b = o.stack[o.stack.len() - 2];
            let a = o.stack[o.stack.len() - 1];
            if i is Mod && a == 0 {
                Err(Trap::ModuloByZero)
            } else {
                Ok(Observables {
                    stack: o.stack.drop_last().drop_last().push(binop_value(i, b, a)),
                    ..o
                })
            }
        }
    } else {
        match i {
            ByteCode::Push(v) => Ok(Observables { stack: o.stack.push(v), ..o }),
            ByteCode::Pop => if o.stack.len() == 0 {
                Err(Trap::StackUnderflow)
            } else {
                Ok(Observables { stack: o.stack.drop_last(), ..o })
            },
            ByteCode::Var(name) => if o.vars.contains_key(name@) {
                Ok(Observables { stack: o.stack.push(o.vars[name@]), ..o })
            } else {
                Err(Trap::UndefinedVariable)
            },
            ByteCode::Label(_) => Ok(o),
            ByteCode::Print => if o.stack.len() == 0 {
                Err(Trap::StackUnderflow)
            } else {
                Ok(Observables {
                    stack: o.stack.drop_last(),
                    output: o.output.push(o.stack.last()),
                    ..o
                })
            },
            ByteCode::Assign(name) => if o.stack.len() == 0 {
                Err(Trap::StackUnderflow)
            } else {
                Ok(Observables {
                    stack: o.stack.drop_last(),
                    vars: o.vars.insert(name@, o.stack.last()),
                    ..o
                })
            },
            ByteCode::PushAdd(v) => if o.stack.len() == 0 {
                Err(Trap::StackUnderflow)
            } else {
                Ok(Observables {
                    stack: o.stack.drop_last().push(
                        vstd::wrapping::u64_specs::wrapping_add(o.stack.last(), v),
                    ),
                    ..o
                })
            },
            ByteCode::AssignPushAdd { name, value } => if o.stack.len() == 0 {
                Err(Trap::StackUnderflow)
            } else {
                Ok(Observables {
                    stack: o.stack.drop_last(),
                    vars: o.vars.insert(
                        name@,
                        vstd::wrapping::u64_specs::wrapping_add(value, o.stack.last()),
                    ),
                    ..o
                })
            },
            ByteCode::PushAssign { name, value } => Ok(Observables {
                vars: o.vars.insert(name@, value),
                ..o
            }),
            _ => Ok(o),
        }
    }
}

/// A straight-line run: the observables it ends with, or the trap it
/// aborts on together with the observables as they stood there.
pub ghost enum StraightRun {
    Done(Observables),
    Aborted(Trap, Observables),
}

/// Executes a jump-free sequence front to back on the observables alone.
pub open spec fn run_straight(p: Seq<ByteCode>, o: Observables) -> StraightRun
    decreases p.len(),
{
    if p.len() == 0 {
        StraightRun::Done(o)
    } else {
        match instr_effect(p[0], o) {
            Ok(o2) => run_straight(p.drop_first(), o2),
            Err(t) => StraightRun::Aborted(t, o),
        }
    }
}

/// Two straight-line runs that cannot be told apart: they end with the
/// same observables, or abort on the same trap having written the same
/// variables and printed the same output. The stack is gone with an
/// aborted run, so it is not compared there.
pub open spec fn equiv_runs(a: StraightRun, b: StraightRun) -> bool {
    match (a, b) {
        (StraightRun::Done(x), StraightRun::Done(y)) => x == y,
        (StraightRun::Aborted(t1, x), StraightRun::Aborted(t2, y)) => t1 == t2 && x.vars == y.vars
            && x.output == y.output,
        _ => false,
    }
}

/// Running one more instruction at the back runs the front first.
pub proof fn lemma_run_straight_snoc(p: Seq<ByteCode>, x: ByteCode, o: Observables)
    ensures
        run_straight(p.push(x), o) == (match run_straight(p, o) {
            StraightRun::Done(o2) => match instr_effect(x, o2) {
                Ok(o3) => StraightRun::Done(o3),
                Err(t) => StraightRun::Aborted(t, o2),
            },
            StraightRun::Aborted(t, o2) => StraightRun::Aborted(t, o2),
        }),
    decreases p.len(),
{
    if p.len() == 0 {
        assert(p.push(x)[0] == x);
        assert(p.push(x).drop_first() =~= Seq::<ByteCode>::empty());
        assert(run_straight(p, o) == StraightRun::Done(o));
        match instr_effect(x, o) {
            Ok(o3) => {
                assert(run_straight(p.push(x), o) == run_straight(
                    Seq::<ByteCode>::empty(),
                    o3,
                ));
                assert(run_straight(Seq::<ByteCode>::empty(), o3) == StraightRun::Done(o3));
            },
            Err(t) => {
                assert(run_straight(p.push(x), o) == StraightRun::Aborted(t, o));
            },
        }
    } else {
        assert(p.push(x)[0] == p[0]);
        assert(p.push(x).drop_first() =~= p.drop_first().push(x));
        match instr_effect(p[0], o) {
            Ok(o2) => {
                assert(run_straight(p, o) == run_straight(p.drop_first(), o2));
                assert(run_straight(p.push(x), o) == run_straight(
                    p.drop_first().push(x),
                    o2,
                ));
                lemma_run_straight_snoc(p.drop_first(), x, o2);
            },
            Err(t) => {
                assert(run_straight(p, o) == StraightRun::Aborted(t, o));
                assert(run_straight(p.push(x), o) == StraightRun::Aborted(t, o));
            },
        }
    }
}

/// One step of the full machine does what the straight-line table says,
/// on any instruction that is not a jump.
pub proof fn lemma_step_effect(p: Seq<ByteCode>, s: MachineState)
    requires
        0 <= s.pc < p.len(),
        !is_jump(p[s.pc]),
    ensures
        match instr_effect(p[s.pc], observables(s)) {
            Ok(o2) => step(p, s) == StepResult::Next(
                MachineState { stack: o2.stack, vars: o2.vars, pc: s.pc + 1, output: o2.output },
            ),
            Err(t) => step(p, s) == StepResult::Fault(t),
        },
{
}

/// Taking a successful step shifts the whole rest of the run.
pub proof fn lemma_advance_shift(p: Seq<ByteCode>, s: MachineState, s2: MachineState, n: nat)
    requires
        0 <= s.pc < p.len(),
        step(p, s) == StepResult::Next(s2),
    ensures
        advance(p, s, n + 1) == advance(p, s2, n),
    decreases n,
{
    if n == 0 {
        assert(advance(p, s, 0) == Run::Going(s));
        assert(advance(p, s, 1) == Run::Going(s2));
        assert(advance(p, s2, 0) == Run::Going(s2));
    } else {
        lemma_advance_shift(p, s, s2, (n - 1) as nat);
        assert(advance(p, s, n + 1) == advance(p, s2, n));
    }
}

/// Execution can pass from `s` to `s2`: some number of steps takes the
/// machine from the one to the other, neither faulting nor stopping
/// short.
pub open spec fn reaches(p: Seq<ByteCode>, s: MachineState, s2: MachineState) -> bool {
    exists|n: nat| advance(p, s, n) == Run::Going(s2)
}

/// Runs compose: steps taken from a reached state count from the start.
pub proof fn lemma_advance_add(
    p: Seq<ByteCode>,
    s: MachineState,
    m: MachineState,
    n1: nat,
    n2: nat,
)
    requires
        advance(p, s, n1) == Run::Going(m),
    ensures
        advance(p, s, n1 + n2) == advance(p, m, n2),
    decreases n2,
{
    if n2 > 0 {
        lemma_advance_add(p, s, m, n1, (n2 - 1) as nat);
        assert(advance(p, s, n1 + n2) == advance(p, m, n2));
    }
}

/// `reaches` is transitive.
pub proof fn lemma_reaches_trans(
    p: Seq<ByteCode>,
    s: MachineState,
    m: MachineState,
    e: MachineState,
)
    requires
        reaches(p, s, m),
        reaches(p, m, e),
    ensures
        reaches(p, s, e),
{
    let n1 = choose|n: nat| advance(p, s, n) == Run::Going(m);
    let n2 = choose|n: nat| advance(p, m, n) == Run::Going(e);
    lemma_advance_add(p, s, m, n1, n2);
}

/// Where a reached state comes to rest, the start comes to rest too.
pub proof fn lemma_reaches_runs_to(p: Seq<ByteCode>, s: MachineState, m: MachineState, r: Run)
    requires
        reaches(p, s, m),
        runs_to(p, m, r),
    ensures
        runs_to(p, s, r),
{
    let n1 = choose|n: nat| advance(p, s, n) == Run::Going(m);
    let n2 = choose|n: nat| advance(p, m, n) == r;
    lemma_advance_add(p, s, m, n1, n2);
}

/// One successful step reaches its successor state.
pub proof fn lemma_step_reaches(p: Seq<ByteCode>, s: MachineState, s2: MachineState)
    requires
        0 <= s.pc < p.len(),
        step(p, s) == StepResult::Next(s2),
    ensures
        reaches(p, s, s2),
{
    assert(advance(p, s, 0) == Run::Going(s));
    assert(advance(p, s, 1) == Run::Going(s2));
}

/// Running across a jump-free region: from `s` up to position `b`, the
/// machine does exactly what the straight-line run of that slice says —
/// it reaches `b` with those observables, or it comes to rest on that
/// trap with those observables.
pub proof fn lemma_segment_run(p: Seq<ByteCode>, s: MachineState, b: int)
    requires
        0 <= s.pc <= b <= p.len(),
        forall|k: int| s.pc <= k < b ==> !is_jump(#[trigger] p[k]),
    ensures
        match run_straight(p.subrange(s.pc, b), observables(s)) {
            StraightRun::Done(o) => reaches(
                p,
                s,
                MachineState { stack: o.stack, vars: o.vars, pc: b, output: o.output },
            ),
            StraightRun::Aborted(t, o) => exists|m: MachineState|
                runs_to(p, s, Run::Stuck(t, m)) && observables(m) == o,
        },
    decreases b - s.pc,
{
    let seg = p.subrange(s.pc, b);
    if s.pc == b {
        assert(seg =~= Seq::<ByteCode>::empty());
        assert(advance(p, s, 0) == Run::Going(s));
        assert(s == MachineState { stack: s.stack, vars: s.vars, pc: b, output: s.output });
    } else {
        assert(seg[0] == p[s.pc]);
        assert(!is_jump(p[s.pc]));
        lemma_step_effect(p, s);
        assert(seg.drop_first() =~= p.subrange(s.pc + 1, b));
        match instr_effect(p[s.pc], observables(s)) {
            Ok(o2) => {
                let s2 = MachineState {
                    stack: o2.stack,
                    vars: o2.vars,
                    pc: s.pc + 1,
                    output: o2.output,
                };
                lemma_step_reaches(p, s, s2);
                lemma_segment_run(p, s2, b);
                match run_straight(p.subrange(s.pc + 1, b), o2) {
                    StraightRun::Done(o) => {
                        lemma_reaches_trans(
                            p,
                            s,
                            s2,
                            MachineState { stack: o.stack, vars: o.vars, pc: b, output: o.output },
                        );
                    },
                    StraightRun::Aborted(t, o) => {
                        let m = choose|m: MachineState|
                            runs_to(p, s2, Run::Stuck(t, m)) && observables(m) == o;
                        lemma_reaches_runs_to(p, s, s2, Run::Stuck(t, m));
                        assert(runs_to(p, s, Run::Stuck(t, m)) && observables(m) == o);
                    },
                }
            },
            Err(t) => {
                assert(advance(p, s, 0) == Run::Going(s));
                assert(advance(p, s, 1) == Run::Stuck(t, s));
                assert(runs_to(p, s, Run::Stuck(t, s)) && observables(s) == observables(s));
            },
        }
    }
}

/// A jump-free program always comes to rest, exactly as its straight-line
/// run says: done with those observables and the counter past the end, or
/// stuck on that trap with those observables.
pub proof fn lemma_straight_to_advance(p: Seq<ByteCode>, s: MachineState)
    requires
        jump_free(p),
        0 <= s.pc <= p.len(),
    ensures
        match run_straight(p.skip(s.pc), observables(s)) {
            StraightRun::Done(o) => runs_to(
                p,
                s,
                Run::Going(
                    MachineState {
                        stack: o.stack,
                        vars: o.vars,
                        pc: p.len() as int,
                        output: o.output,
                    },
                ),
            ),
            StraightRun::Aborted(t, o) => exists|m: MachineState|
                runs_to(p, s, Run::Stuck(t, m)) && observables(m) == o,
        },
{
    assert(p.skip(s.pc) =~= p.subrange(s.pc, p.len() as int));
    lemma_segment_run(p, s, p.len() as int);
    match run_straight(p.skip(s.pc), observables(s)) {
        StraightRun::Done(o) => {
            let e = MachineState {
                stack: o.stack,
                vars: o.vars,
                pc: p.len() as int,
                output: o.output,
            };
            let n = choose|n: nat| advance(p, s, n) == Run::Going(e);
            assert(settled(p, Run::Going(e)));
        },
        StraightRun::Aborted(_, _) => {},
    }
}

} // verus!
