use vstd::prelude::*;

use crate::bytecode::ByteCode;
use crate::machine::{
    advance, init_state, runs_to, step, MachineState, Progress, Run, StepResult, Trap,
};
use crate::vars::VarTable;

verus! {

/// The direct engine: a single program-counter-indexed fetch-decode-execute
/// loop over the resolved instruction sequence. Each iteration performs the
/// effect that the spec-level table `step` gives for the current
/// instruction, so the run is provably the spec-level execution.
pub struct ByteCodeInterpreter {
    stack: Vec<u64>,
    pc: usize,
    variables: VarTable,
    output: Vec<u64>,
}

impl ByteCodeInterpreter {
    /// The machine state this instance is in.
    pub closed spec fn state(&self) -> MachineState {
        MachineState {
            stack: self.stack@,
            vars: self.variables@,
            pc: self.pc as int,
            output: self.output@,
        }
    }

    /// A fresh instance: empty stack, empty variable table, counter at the
    /// first instruction, nothing printed.
    pub fn new() -> (r: Self)
        ensures
            r.state() == init_state(),
    {
        Self { stack: Vec::new(), pc: 0, variables: VarTable::new(), output: Vec::new() }
    }

    /// The values printed so far, oldest first.
    pub fn output(&self) -> (r: &Vec<u64>)
        ensures
            r@ == self.state().output,
    {
        &self.output
    }

    /// The value of a variable, or `None` before its first assignment.
    pub fn get_variable(&self, name: &String) -> (r: Option<u64>)
        ensures
            r == if self.state().vars.contains_key(name@) {
                Some(self.state().vars[name@])
            } else {
                None::<u64>
            },
    {
        self.variables.lookup(name)
    }

    /// Fetches, decodes and executes the instruction under the program
    /// counter: exactly one step of the spec-level execution. On a fault
    /// the state is left exactly as it stood.
    #[verifier::rlimit(60)]
    fn step_once(&mut self, instructions: &Vec<ByteCode>) -> (r: Result<(), Trap>)
        requires
            old(self).state().pc < instructions@.len(),
        ensures
            match r {
                Ok(()) => step(instructions@, old(self).state()) == StepResult::Next(
                    final(self).state(),
                ),
                Err(t) => step(instructions@, old(self).state()) == StepResult::Fault(t)
                    && final(self).state() == old(self).state(),
            },
    {
        let ghost p = instructions@;
        let ghost pre = self.state();
        let end = instructions.len();
        proof {
            assert(self.pc < end);
        }
        let inst = &instructions[self.pc];
        match inst {
            ByteCode::Push(value) => {
                self.stack.push(*value);
                self.pc = self.pc + 1;
                proof {
                    assert(step(p, pre) == StepResult::Next(self.state()));
                }
            },
            ByteCode::Pop => {
                match self.stack.pop() {
                    Some(_) => { self.pc = self.pc + 1; },
                    None => {
                        return Err(Trap::StackUnderflow);
                    },
                }
                proof {
                    assert(step(p, pre) == StepResult::Next(self.state()));
                }
            },
            ByteCode::Add => {
                if self.stack.len() < 2 {
                    return Err(Trap::StackUnderflow);
                }
                let a = self.stack.pop().unwrap();
                let b = self.stack.pop().unwrap();
                self.stack.push(b.wrapping_add(a));
                self.pc = self.pc + 1;
                proof {
                    assert(step(p, pre) == StepResult::Next(self.state()));
                }
            },
            ByteCode::Sub => {
                if self.stack.len() < 2 {
                    return Err(Trap::StackUnderflow);
                }
                let a = self.stack.pop().unwrap();
                let b = self.stack.pop().unwrap();
                self.stack.push(b.wrapping_sub(a));
                self.pc = self.pc + 1;
                proof {
                    assert(step(p, pre) == StepResult::Next(self.state()));
                }
            },
            ByteCode::Mul => {
                if self.stack.len() < 2 {
                    return Err(Trap::StackUnderflow);
                }
                let a = self.stack.pop().unwrap();
                let b = self.stack.pop().unwrap();
                self.stack.push(b.wrapping_mul(a));
                self.pc = self.pc + 1;
                proof {
                    assert(step(p, pre) == StepResult::Next(self.state()));
                }
            },
            ByteCode::Mod => {
                if self.stack.len() < 2 {
                    return Err(Trap::StackUnderflow);
                }
                if self.stack[self.stack.len() - 1] == 0 {
                    return Err(Trap::ModuloByZero);
                }
                let a = self.stack.pop().unwrap();
                let b = self.stack.pop().unwrap();
                self.stack.push(b % a);
                self.pc = self.pc + 1;
                proof {
                    assert(step(p, pre) == StepResult::Next(self.state()));
                }
            },
            ByteCode::Var(name) => {
                match self.variables.lookup(name) {
                    Some(value) => {
                        self.stack.push(value);
                        self.pc = self.pc + 1;
                    },
                    None => {
                        return Err(Trap::UndefinedVariable);
                    },
                }
                proof {
                    assert(step(p, pre) == StepResult::Next(self.state()));
                }
            },
            ByteCode::Eq => {
                if self.stack.len() < 2 {
                    return Err(Trap::StackUnderflow);
                }
                let a = self.stack.pop().unwrap();
                let b = self.stack.pop().unwrap();
                self.stack.push(if a == b { 1 } else { 0 });
                self.pc = self.pc + 1;
                proof {
                    assert(step(p, pre) == StepResult::Next(self.state()));
                }
            },
            ByteCode::NEq => {
                if self.stack.len() < 2 {
                    return Err(Trap::StackUnderflow);
                }
                let a = self.stack.pop().unwrap();
                let b = self.stack.pop().unwrap();
                self.stack.push(if a != b { 1 } else { 0 });
                self.pc = self.pc + 1;
                proof {
                    assert(step(p, pre) == StepResult::Next(self.state()));
                }
            },
            ByteCode::Lt => {
                if self.stack.len() < 2 {
                    return Err(Trap::StackUnderflow);
                }
                let a = self.stack.pop().unwrap();
                let b = self.stack.pop().unwrap();
                self.stack.push(if b < a { 1 } else { 0 });
                self.pc = self.pc + 1;
                proof {
                    assert(step(p, pre) == StepResult::Next(self.state()));
                }
            },
            ByteCode::Gt => {
                if self.stack.len() < 2 {
                    return Err(Trap::StackUnderflow);
                }
                let a = self.stack.pop().unwrap();
                let b = self.stack.pop().unwrap();
                self.stack.push(if b > a { 1 } else { 0 });
                self.pc = self.pc + 1;
                proof {
                    assert(step(p, pre) == StepResult::Next(self.state()));
                }
            },
            ByteCode::Lte => {
                if self.stack.len() < 2 {
                    return Err(Trap::StackUnderflow);
                }
                let a = self.stack.pop().unwrap();
                let b = self.stack.pop().unwrap();
                self.stack.push(if b <= a { 1 } else { 0 });
                self.pc = self.pc + 1;
                proof {
                    assert(step(p, pre) == StepResult::Next(self.state()));
                }
            },
            ByteCode::Gte => {
                if self.stack.len() < 2 {
                    return Err(Trap::StackUnderflow);
                }
                let a = self.stack.pop().unwrap();
                let b = self.stack.pop().unwrap();
                self.stack.push(if b >= a { 1 } else { 0 });
                self.pc = self.pc + 1;
                proof {
                    assert(step(p, pre) == StepResult::Next(self.state()));
                }
            },
            ByteCode::And => {
                if self.stack.len() < 2 {
                    return Err(Trap::StackUnderflow);
                }
                let a = self.stack.pop().unwrap();
                let b = self.stack.pop().unwrap();
                self.stack.push(if b == 1 && a == 1 { 1 } else { 0 });
                self.pc = self.pc + 1;
                proof {
                    assert(step(p, pre) == StepResult::Next(self.state()));
                }
            },
            ByteCode::Or => {
                if self.stack.len() < 2 {
                    return Err(Trap::StackUnderflow);
                }
                let a = self.stack.pop().unwrap();
                let b = self.stack.pop().unwrap();
                self.stack.push(if b == 1 || a == 1 { 1 } else { 0 });
                self.pc = self.pc + 1;
                proof {
                    assert(step(p, pre) == StepResult::Next(self.state()));
                }
            },
            ByteCode::Jz { label: _, offset } => {
                let off = *offset;
                match self.stack.pop() {
                    Some(value) => {
                        if value == 0 {
                            let t: i128 = self.pc as i128 + off as i128 + 1;
                            if t < 0 {
                                self.stack.push(value);
                                proof {
                                    assert(self.stack@ =~= pre.stack);
                                    assert(self.state() == pre);
                                }
                                return Err(Trap::NegativeJump);
                            }
                            self.pc = if t >= instructions.len() as i128 {
                                instructions.len()
                            } else {
                                t as usize
                            };
                        } else {
                            self.pc = self.pc + 1;
                        }
                        proof {
                            assert(step(p, pre) == StepResult::Next(self.state()));
                        }
                    },
                    None => {
                        return Err(Trap::StackUnderflow);
                    },
                }
            },
            ByteCode::JNz { label: _, offset } => {
                let off = *offset;
                match self.stack.pop() {
                    Some(value) => {
                        if value != 0 {
                            let t: i128 = self.pc as i128 + off as i128 + 1;
                            if t < 0 {
                                self.stack.push(value);
                                proof {
                                    assert(self.stack@ =~= pre.stack);
                                    assert(self.state() == pre);
                                }
                                return Err(Trap::NegativeJump);
                            }
                            self.pc = if t >= instructions.len() as i128 {
                                instructions.len()
                            } else {
                                t as usize
                            };
                        } else {
                            self.pc = self.pc + 1;
                        }
                        proof {
                            assert(step(p, pre) == StepResult::Next(self.state()));
                        }
                    },
                    None => {
                        return Err(Trap::StackUnderflow);
                    },
                }
            },
            ByteCode::Jmp { label: _, offset } => {
                let off = *offset;
                let t: i128 = self.pc as i128 + off as i128 + 1;
                if t < 0 {
                    return Err(Trap::NegativeJump);
                }
                self.pc = if t >= instructions.len() as i128 {
                    instructions.len()
                } else {
                    t as usize
                };
                proof {
                    assert(step(p, pre) == StepResult::Next(self.state()));
                }
            },
            ByteCode::Label(_) => {
                self.pc = self.pc + 1;
                proof {
                    assert(step(p, pre) == StepResult::Next(self.state()));
                }
            },
            ByteCode::Print => {
                match self.stack.pop() {
                    Some(value) => {
                        self.output.push(value);
                        self.pc = self.pc + 1;
                    },
                    None => {
                        return Err(Trap::StackUnderflow);
                    },
                }
                proof {
                    assert(step(p, pre) == StepResult::Next(self.state()));
                }
            },
            ByteCode::Assign(name) => {
                match self.stack.pop() {
                    Some(value) => {
                        self.variables.insert(name.clone(), value);
                        self.pc = self.pc + 1;
                    },
                    None => {
                        return Err(Trap::StackUnderflow);
                    },
                }
                proof {
                    assert(step(p, pre) == StepResult::Next(self.state()));
                }
            },
            ByteCode::PushAdd(value) => {
                match self.stack.pop() {
                    Some(a) => {
                        self.stack.push(a.wrapping_add(*value));
                        self.pc = self.pc + 1;
                    },
                    None => {
                        return Err(Trap::StackUnderflow);
                    },
                }
                proof {
                    assert(step(p, pre) == StepResult::Next(self.state()));
                }
            },
            ByteCode::AssignPushAdd { name, value } => {
                match self.stack.pop() {
                    Some(x) => {
                        self.variables.insert(name.clone(), value.wrapping_add(x));
                        self.pc = self.pc + 1;
                    },
                    None => {
                        return Err(Trap::StackUnderflow);
                    },
                }
                proof {
                    assert(step(p, pre) == StepResult::Next(self.state()));
                }
            },
            ByteCode::PushAssign { name, value } => {
                self.variables.insert(name.clone(), *value);
                self.pc = self.pc + 1;
                proof {
                    assert(step(p, pre) == StepResult::Next(self.state()));
                }
            },
        }
        Ok(())
    }

    /// Runs the program, executing at most `max_steps` instructions.
    ///
    /// On `Ok(Progress::Halted)` the program counter passed the end of the
    /// sequence and the state is the settled spec-level execution of
    /// `instructions`; on `Ok(Progress::OutOfSteps)` the state is the
    /// spec-level execution after exactly `max_steps` instructions, still
    /// going. On `Err` the run came to rest at a fatal fault, with the
    /// state exactly as it stood at the faulting instruction.
    pub fn interpret(&mut self, instructions: &Vec<ByteCode>, max_steps: u64) -> (r: Result<
        Progress,
        Trap,
    >)
        ensures
            match r {
                Ok(Progress::Halted) => runs_to(
                    instructions@,
                    old(self).state(),
                    Run::Going(final(self).state()),
                ),
                Ok(Progress::OutOfSteps) => advance(
                    instructions@,
                    old(self).state(),
                    max_steps as nat,
                ) == Run::Going(final(self).state()) && final(self).state().pc
                    < instructions@.len(),
                Err(t) => runs_to(
                    instructions@,
                    old(self).state(),
                    Run::Stuck(t, final(self).state()),
                ),
            },
    {
        let ghost p = instructions@;
        let ghost s0 = self.state();
        let mut used: u64 = 0;
        proof {
            assert(advance(p, s0, 0) == Run::Going(s0));
        }
        while self.pc < instructions.len() && used < max_steps
            invariant
                used <= max_steps,
                p == instructions@,
                s0 == old(self).state(),
                advance(p, s0, used as nat) == Run::Going(self.state()),
            decreases max_steps - used,
        {
            match self.step_once(instructions) {
                Ok(()) => {
                    used = used + 1;
                    proof {
                        assert(advance(p, s0, used as nat) == Run::Going(self.state()));
                    }
                },
                Err(t) => {
                    proof {
                        assert(advance(p, s0, used as nat + 1) == Run::Stuck(t, self.state()));
                    }
                    return Err(t);
                },
            }
        }
        if self.pc < instructions.len() {
            Ok(Progress::OutOfSteps)
        } else {
            Ok(Progress::Halted)
        }
    }
}

} // verus!
