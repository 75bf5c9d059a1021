use vstd::prelude::*;

use crate::bytecode::{copy_program, ByteCode};
use crate::machine::{
    advance, init_state, runs_to, step, MachineState, Progress, Run, StepResult, Trap,
};
use crate::vars::VarTable;

verus! {

/// The discriminant of an instruction: the closed tag the dispatch table
/// is indexed by.
#[derive(Clone, Copy, PartialEq, Eq, Structural, Debug)]
pub enum OpCode {
    Push,
    Pop,
    Add,
    Sub,
    Mul,
    Mod,
    Var,
    Eq,
    NEq,
    Lt,
    Gt,
    Lte,
    Gte,
    And,
    Or,
    Jz,
    JNz,
    Jmp,
    Label,
    Print,
    Assign,
    PushAdd,
    AssignPushAdd,
    PushAssign,
}

/// The tag of an instruction.
pub open spec fn opcode_of(i: ByteCode) -> OpCode {
    match i {
        ByteCode::Push(_) => OpCode::Push,
        ByteCode::Pop => OpCode::Pop,
        ByteCode::Add => OpCode::Add,
        ByteCode::Sub => OpCode::Sub,
        ByteCode::Mul => OpCode::Mul,
        ByteCode::Mod => OpCode::Mod,
        ByteCode::Var(_) => OpCode::Var,
        ByteCode::Eq => OpCode::Eq,
        ByteCode::NEq => OpCode::NEq,
        ByteCode::Lt => OpCode::Lt,
        ByteCode::Gt => OpCode::Gt,
        ByteCode::Lte => OpCode::Lte,
        ByteCode::Gte => OpCode::Gte,
        ByteCode::And => OpCode::And,
        ByteCode::Or => OpCode::Or,
        ByteCode::Jz { .. } => OpCode::Jz,
        ByteCode::JNz { .. } => OpCode::JNz,
        ByteCode::Jmp { .. } => OpCode::Jmp,
        ByteCode::Label(_) => OpCode::Label,
        ByteCode::Print => OpCode::Print,
        ByteCode::Assign(_) => OpCode::Assign,
        ByteCode::PushAdd(_) => OpCode::PushAdd,
        ByteCode::AssignPushAdd { .. } => OpCode::AssignPushAdd,
        ByteCode::PushAssign { .. } => OpCode::PushAssign,
    }
}

/// The tag of an instruction, for the dispatcher.
pub fn opcode(i: &ByteCode) -> (r: OpCode)
    ensures
        r == opcode_of(*i),
{
    match i {
        ByteCode::Push(_) => OpCode::Push,
        ByteCode::Pop => OpCode::Pop,
        ByteCode::Add => OpCode::Add,
        ByteCode::Sub => OpCode::Sub,
        ByteCode::Mul => OpCode::Mul,
        ByteCode::Mod => OpCode::Mod,
        ByteCode::Var(_) => OpCode::Var,
        ByteCode::Eq => OpCode::Eq,
        ByteCode::NEq => OpCode::NEq,
        ByteCode::Lt => OpCode::Lt,
        ByteCode::Gt => OpCode::Gt,
        ByteCode::Lte => OpCode::Lte,
        ByteCode::Gte => OpCode::Gte,
        ByteCode::And => OpCode::And,
        ByteCode::Or => OpCode::Or,
        ByteCode::Jz { .. } => OpCode::Jz,
        ByteCode::JNz { .. } => OpCode::JNz,
        ByteCode::Jmp { .. } => OpCode::Jmp,
        ByteCode::Label(_) => OpCode::Label,
        ByteCode::Print => OpCode::Print,
        ByteCode::Assign(_) => OpCode::Assign,
        ByteCode::PushAdd(_) => OpCode::PushAdd,
        ByteCode::AssignPushAdd { .. } => OpCode::AssignPushAdd,
        ByteCode::PushAssign { .. } => OpCode::PushAssign,
    }
}

/// The handler-chaining engine. There is no central decode: each opcode
/// has a handler of its own that performs the opcode's whole effect,
/// program-counter advance included, and the dispatcher only looks the
/// next handler up by tag. It holds its own copy of the program, so each
/// instance runs independently of its caller.
pub struct ByteCodeInterpreterThreaded {
    stack: Vec<u64>,
    pc: usize,
    variables: VarTable,
    instructions: Vec<ByteCode>,
    output: Vec<u64>,
}

/// The instruction under `s`'s program counter carries the tag `k`: what a
/// handler for `k` requires of the instance it runs on.
pub open spec fn fetches(s: ByteCodeInterpreterThreaded, k: OpCode) -> bool {
    &&& s.state().pc < s.program().len()
    &&& opcode_of(s.program()[s.state().pc]) == k
}

/// What every handler ensures: the program is untouched, and the instance
/// moved by exactly one step of the spec-level execution — or reports the
/// fault that step runs into, leaving the state as it stood.
pub open spec fn handler_steps(
    pre: ByteCodeInterpreterThreaded,
    post: ByteCodeInterpreterThreaded,
    r: Result<(), Trap>,
) -> bool {
    &&& post.program() == pre.program()
    &&& match r {
        Ok(()) => step(pre.program(), pre.state()) == StepResult::Next(post.state()),
        Err(t) => step(pre.program(), pre.state()) == StepResult::Fault(t) && post.state()
            == pre.state(),
    }
}

impl ByteCodeInterpreterThreaded {
    /// The machine state this instance is in.
    pub closed spec fn state(&self) -> MachineState {
        MachineState {
            stack: self.stack@,
            vars: self.variables@,
            pc: self.pc as int,
            output: self.output@,
        }
    }

    /// The program this instance runs.
    pub closed spec fn program(&self) -> Seq<ByteCode> {
        self.instructions@
    }

    /// A fresh instance over its own copy of the program.
    pub fn new(instructions: &Vec<ByteCode>) -> (r: Self)
        ensures
            r.state() == init_state(),
            r.program() == instructions@,
    {
        Self {
            stack: Vec::new(),
            pc: 0,
            variables: VarTable::new(),
            instructions: copy_program(instructions),
            output: Vec::new(),
        }
    }

    /// The values printed so far, oldest first.
    pub fn output(&self) -> (r: &Vec<u64>)
        ensures
            r@ == self.state().output,
    {
        &self.output
    }

    /// The value of a variable, or `None` before its first assignment.
    pub fn get_variable(&self, name: &String) -> (r: Option<u64>)
        ensures
            r == if self.state().vars.contains_key(name@) {
                Some(self.state().vars[name@])
            } else {
                None::<u64>
            },
    {
        self.variables.lookup(name)
    }

    fn op_push(&mut self) -> (r: Result<(), Trap>)
        requires
            fetches(*old(self), OpCode::Push),
        ensures
            handler_steps(*old(self), *final(self), r),
    {
        let end = self.instructions.len();
        proof {
            assert(self.pc < end);
        }
        let value = match &self.instructions[self.pc] {
            ByteCode::Push(v) => *v,
            _ => vstd::pervasive::unreached(),
        };
        self.stack.push(value);
        self.pc = self.pc + 1;
        Ok(())
    }

    fn op_pop(&mut self) -> (r: Result<(), Trap>)
        requires
            fetches(*old(self), OpCode::Pop),
        ensures
            handler_steps(*old(self), *final(self), r),
    {
        let end = self.instructions.len();
        proof {
            assert(self.pc < end);
        }
        match self.stack.pop() {
            Some(_) => {
                self.pc = self.pc + 1;
                Ok(())
            },
            None => Err(Trap::StackUnderflow),
        }
    }

    fn op_add(&mut self) -> (r: Result<(), Trap>)
        requires
            fetches(*old(self), OpCode::Add),
        ensures
            handler_steps(*old(self), *final(self), r),
    {
        let end = self.instructions.len();
        proof {
            assert(self.pc < end);
        }
        if self.stack.len() < 2 {
            return Err(Trap::StackUnderflow);
        }
        let a = self.stack.pop().unwrap();
        let b = self.stack.pop().unwrap();
        self.stack.push(b.wrapping_add(a));
        self.pc = self.pc + 1;
        Ok(())
    }

    fn op_sub(&mut self) -> (r: Result<(), Trap>)
        requires
            fetches(*old(self), OpCode::Sub),
        ensures
            handler_steps(*old(self), *final(self), r),
    {
        let end = self.instructions.len();
        proof {
            assert(self.pc < end);
        }
        if self.stack.len() < 2 {
            return Err(Trap::StackUnderflow);
        }
        let a = self.stack.pop().unwrap();
        let b = self.stack.pop().unwrap();
        self.stack.push(b.wrapping_sub(a));
        self.pc = self.pc + 1;
        Ok(())
    }

    fn op_mul(&mut self) -> (r: Result<(), Trap>)
        requires
            fetches(*old(self), OpCode::Mul),
        ensures
            handler_steps(*old(self), *final(self), r),
    {
        let end = self.instructions.len();
        proof {
            assert(self.pc < end);
        }
        if self.stack.len() < 2 {
            return Err(Trap::StackUnderflow);
        }
        let a = self.stack.pop().unwrap();
        let b = self.stack.pop().unwrap();
        self.stack.push(b.wrapping_mul(a));
        self.pc = self.pc + 1;
        Ok(())
    }

    fn op_mod(&mut self) -> (r: Result<(), Trap>)
        requires
            fetches(*old(self), OpCode::Mod),
        ensures
            handler_steps(*old(self), *final(self), r),
    {
        let end = self.instructions.len();
        proof {
            assert(self.pc < end);
        }
        if self.stack.len() < 2 {
            return Err(Trap::StackUnderflow);
        }
        if self.stack[self.stack.len() - 1] == 0 {
            return Err(Trap::ModuloByZero);
        }
        let a = self.stack.pop().unwrap();
        let b = self.stack.pop().unwrap();
        self.stack.push(b % a);
        self.pc = self.pc + 1;
        Ok(())
    }

    fn op_var(&mut self) -> (r: Result<(), Trap>)
        requires
            fetches(*old(self), OpCode::Var),
        ensures
            handler_steps(*old(self), *final(self), r),
    {
        let end = self.instructions.len();
        proof {
            assert(self.pc < end);
        }
        let looked_up = match &self.instructions[self.pc] {
            ByteCode::Var(name) => self.variables.lookup(name),
            _ => vstd::pervasive::unreached(),
        };
        match looked_up {
            Some(value) => {
                self.stack.push(value);
                self.pc = self.pc + 1;
                Ok(())
            },
            None => Err(Trap::UndefinedVariable),
        }
    }

    fn op_eq(&mut self) -> (r: Result<(), Trap>)
        requires
            fetches(*old(self), OpCode::Eq),
        ensures
            handler_steps(*old(self), *final(self), r),
    {
        let end = self.instructions.len();
        proof {
            assert(self.pc < end);
        }
        if self.stack.len() < 2 {
            return Err(Trap::StackUnderflow);
        }
        let a = self.stack.pop().unwrap();
        let b = self.stack.pop().unwrap();
        self.stack.push(if a == b { 1 } else { 0 });
        self.pc = self.pc + 1;
        Ok(())
    }

    fn op_neq(&mut self) -> (r: Result<(), Trap>)
        requires
            fetches(*old(self), OpCode::NEq),
        ensures
            handler_steps(*old(self), *final(self), r),
    {
        let end = self.instructions.len();
        proof {
            assert(self.pc < end);
        }
        if self.stack.len() < 2 {
            return Err(Trap::StackUnderflow);
        }
        let a = self.stack.pop().unwrap();
        let b = self.stack.pop().unwrap();
        self.stack.push(if a != b { 1 } else { 0 });
        self.pc = self.pc + 1;
        Ok(())
    }

    fn op_lt(&mut self) -> (r: Result<(), Trap>)
        requires
            fetches(*old(self), OpCode::Lt),
        ensures
            handler_steps(*old(self), *final(self), r),
    {
        let end = self.instructions.len();
        proof {
            assert(self.pc < end);
        }
        if self.stack.len() < 2 {
            return Err(Trap::StackUnderflow);
        }
        let a = self.stack.pop().unwrap();
        let b = self.stack.pop().unwrap();
        self.stack.push(if b < a { 1 } else { 0 });
        self.pc = self.pc + 1;
        Ok(())
    }

    fn op_gt(&mut self) -> (r: Result<(), Trap>)
        requires
            fetches(*old(self), OpCode::Gt),
        ensures
            handler_steps(*old(self), *final(self), r),
    {
        let end = self.instructions.len();
        proof {
            assert(self.pc < end);
        }
        if self.stack.len() < 2 {
            return Err(Trap::StackUnderflow);
        }
        let a = self.stack.pop().unwrap();
        let b = self.stack.pop().unwrap();
        self.stack.push(if b > a { 1 } else { 0 });
        self.pc = self.pc + 1;
        Ok(())
    }

    fn op_lte(&mut self) -> (r: Result<(), Trap>)
        requires
            fetches(*old(self), OpCode::Lte),
        ensures
            handler_steps(*old(self), *final(self), r),
    {
        let end = self.instructions.len();
        proof {
            assert(self.pc < end);
        }
        if self.stack.len() < 2 {
            return Err(Trap::StackUnderflow);
        }
        let a = self.stack.pop().unwrap();
        let b = self.stack.pop().unwrap();
        self.stack.push(if b <= a { 1 } else { 0 });
        self.pc = self.pc + 1;
        Ok(())
    }

    fn op_gte(&mut self) -> (r: Result<(), Trap>)
        requires
            fetches(*old(self), OpCode::Gte),
        ensures
            handler_steps(*old(self), *final(self), r),
    {
        let end = self.instructions.len();
        proof {
            assert(self.pc < end);
        }
        if self.stack.len() < 2 {
            return Err(Trap::StackUnderflow);
        }
        let a = self.stack.pop().unwrap();
        let b = self.stack.pop().unwrap();
        self.stack.push(if b >= a { 1 } else { 0 });
        self.pc = self.pc + 1;
        Ok(())
    }

    fn op_and(&mut self) -> (r: Result<(), Trap>)
        requires
            fetches(*old(self), OpCode::And),
        ensures
            handler_steps(*old(self), *final(self), r),
    {
        let end = self.instructions.len();
        proof {
            assert(self.pc < end);
        }
        if self.stack.len() < 2 {
            return Err(Trap::StackUnderflow);
        }
        let a = self.stack.pop().unwrap();
        let b = self.stack.pop().unwrap();
        self.stack.push(if b == 1 && a == 1 { 1 } else { 0 });
        self.pc = self.pc + 1;
        Ok(())
    }

    fn op_or(&mut self) -> (r: Result<(), Trap>)
        requires
            fetches(*old(self), OpCode::Or),
        ensures
            handler_steps(*old(self), *final(self), r),
    {
        let end = self.instructions.len();
        proof {
            assert(self.pc < end);
        }
        if self.stack.len() < 2 {
            return Err(Trap::StackUnderflow);
        }
        let a = self.stack.pop().unwrap();
        let b = self.stack.pop().unwrap();
        self.stack.push(if b == 1 || a == 1 { 1 } else { 0 });
        self.pc = self.pc + 1;
        Ok(())
    }

    fn op_jz(&mut self) -> (r: Result<(), Trap>)
        requires
            fetches(*old(self), OpCode::Jz),
        ensures
            handler_steps(*old(self), *final(self), r),
    {
        let end = self.instructions.len();
        proof {
            assert(self.pc < end);
        }
        if self.stack.len() == 0 {
            return Err(Trap::StackUnderflow);
        }
        let value = self.stack[self.stack.len() - 1];
        let off = match &self.instructions[self.pc] {
            ByteCode::Jz { label: _, offset } => *offset,
            _ => vstd::pervasive::unreached(),
        };
        if value == 0 {
            let t: i128 = self.pc as i128 + off as i128 + 1;
            if t < 0 {
                return Err(Trap::NegativeJump);
            }
            let _ = self.stack.pop();
            self.pc = if t >= end as i128 {
                end
            } else {
                t as usize
            };
        } else {
            let _ = self.stack.pop();
            self.pc = self.pc + 1;
        }
        Ok(())
    }

    fn op_jnz(&mut self) -> (r: Result<(), Trap>)
        requires
            fetches(*old(self), OpCode::JNz),
        ensures
            handler_steps(*old(self), *final(self), r),
    {
        let end = self.instructions.len();
        proof {
            assert(self.pc < end);
        }
        if self.stack.len() == 0 {
            return Err(Trap::StackUnderflow);
        }
        let value = self.stack[self.stack.len() - 1];
        let off = match &self.instructions[self.pc] {
            ByteCode::JNz { label: _, offset } => *offset,
            _ => vstd::pervasive::unreached(),
        };
        if value != 0 {
            let t: i128 = self.pc as i128 + off as i128 + 1;
            if t < 0 {
                return Err(Trap::NegativeJump);
            }
            let _ = self.stack.pop();
            self.pc = if t >= end as i128 {
                end
            } else {
                t as usize
            };
        } else {
            let _ = self.stack.pop();
            self.pc = self.pc + 1;
        }
        Ok(())
    }

    fn op_jmp(&mut self) -> (r: Result<(), Trap>)
        requires
            fetches(*old(self), OpCode::Jmp),
        ensures
            handler_steps(*old(self), *final(self), r),
    {
        let end = self.instructions.len();
        proof {
            assert(self.pc < end);
        }
        let off = match &self.instructions[self.pc] {
            ByteCode::Jmp { label: _, offset } => *offset,
            _ => vstd::pervasive::unreached(),
        };
        let t: i128 = self.pc as i128 + off as i128 + 1;
        if t < 0 {
            return Err(Trap::NegativeJump);
        }
        self.pc = if t >= end as i128 {
            end
        } else {
            t as usize
        };
        Ok(())
    }

    fn op_label(&mut self) -> (r: Result<(), Trap>)
        requires
            fetches(*old(self), OpCode::Label),
        ensures
            handler_steps(*old(self), *final(self), r),
    {
        let end = self.instructions.len();
        proof {
            assert(self.pc < end);
        }
        self.pc = self.pc + 1;
        Ok(())
    }

    fn op_print(&mut self) -> (r: Result<(), Trap>)
        requires
            fetches(*old(self), OpCode::Print),
        ensures
            handler_steps(*old(self), *final(self), r),
    {
        let end = self.instructions.len();
        proof {
            assert(self.pc < end);
        }
        match self.stack.pop() {
            Some(value) => {
                self.output.push(value);
                self.pc = self.pc + 1;
                Ok(())
            },
            None => Err(Trap::StackUnderflow),
        }
    }

    fn op_assign(&mut self) -> (r: Result<(), Trap>)
        requires
            fetches(*old(self), OpCode::Assign),
        ensures
            handler_steps(*old(self), *final(self), r),
    {
        let end = self.instructions.len();
        proof {
            assert(self.pc < end);
        }
        match self.stack.pop() {
            Some(value) => {
                let name = match &self.instructions[self.pc] {
                    ByteCode::Assign(n) => n.clone(),
                    _ => vstd::pervasive::unreached(),
                };
                self.variables.insert(name, value);
                self.pc = self.pc + 1;
                Ok(())
            },
            None => Err(Trap::StackUnderflow),
        }
    }

    fn op_push_add(&mut self) -> (r: Result<(), Trap>)
        requires
            fetches(*old(self), OpCode::PushAdd),
        ensures
            handler_steps(*old(self), *final(self), r),
    {
        let end = self.instructions.len();
        proof {
            assert(self.pc < end);
        }
        match self.stack.pop() {
            Some(a) => {
                let value = match &self.instructions[self.pc] {
                    ByteCode::PushAdd(v) => *v,
                    _ => vstd::pervasive::unreached(),
                };
                self.stack.push(a.wrapping_add(value));
                self.pc = self.pc + 1;
                Ok(())
            },
            None => Err(Trap::StackUnderflow),
        }
    }

    fn op_assign_push_add(&mut self) -> (r: Result<(), Trap>)
        requires
            fetches(*old(self), OpCode::AssignPushAdd),
        ensures
            handler_steps(*old(self), *final(self), r),
    {
        let end = self.instructions.len();
        proof {
            assert(self.pc < end);
        }
        match self.stack.pop() {
            Some(x) => {
                let (name, value) = match &self.instructions[self.pc] {
                    ByteCode::AssignPushAdd { name, value } => (name.clone(), *value),
                    _ => vstd::pervasive::unreached(),
                };
                self.variables.insert(name, value.wrapping_add(x));
                self.pc = self.pc + 1;
                Ok(())
            },
            None => Err(Trap::StackUnderflow),
        }
    }

    fn op_push_assign(&mut self) -> (r: Result<(), Trap>)
        requires
            fetches(*old(self), OpCode::PushAssign),
        ensures
            handler_steps(*old(self), *final(self), r),
    {
        let end = self.instructions.len();
        proof {
            assert(self.pc < end);
        }
        let (name, value) = match &self.instructions[self.pc] {
            ByteCode::PushAssign { name, value } => (name.clone(), *value),
            _ => vstd::pervasive::unreached(),
        };
        self.variables.insert(name, value);
        self.pc = self.pc + 1;
        Ok(())
    }

    /// Looks the handler for the instruction under the program counter up
    /// by its tag and invokes it: the dispatch table.
    fn next(&mut self) -> (r: Result<(), Trap>)
        requires
            old(self).state().pc < old(self).program().len(),
        ensures
            handler_steps(*old(self), *final(self), r),
    {
        let tag = opcode(&self.instructions[self.pc]);
        match tag {
            OpCode::Push => self.op_push(),
            OpCode::Pop => self.op_pop(),
            OpCode::Add => self.op_add(),
            OpCode::Sub => self.op_sub(),
            OpCode::Mul => self.op_mul(),
            OpCode::Mod => self.op_mod(),
            OpCode::Var => self.op_var(),
            OpCode::Eq => self.op_eq(),
            OpCode::NEq => self.op_neq(),
            OpCode::Lt => self.op_lt(),
            OpCode::Gt => self.op_gt(),
            OpCode::Lte => self.op_lte(),
            OpCode::Gte => self.op_gte(),
            OpCode::And => self.op_and(),
            OpCode::Or => self.op_or(),
            OpCode::Jz => self.op_jz(),
            OpCode::JNz => self.op_jnz(),
            OpCode::Jmp => self.op_jmp(),
            OpCode::Label => self.op_label(),
            OpCode::Print => self.op_print(),
            OpCode::Assign => self.op_assign(),
            OpCode::PushAdd => self.op_push_add(),
            OpCode::AssignPushAdd => self.op_assign_push_add(),
            OpCode::PushAssign => self.op_push_assign(),
        }
    }

    /// Runs the program this instance was built over, executing at most
    /// `max_steps` instructions; the handlers chain from one instruction
    /// to the next until the program counter passes the end of the
    /// sequence.
    ///
    /// The contract is the one the direct engine's run carries, over the
    /// same spec-level execution — which is the cross-engine equivalence:
    /// by `lemma_execution_deterministic`, whenever both engines come to
    /// rest on one program they agree exactly.
    pub fn start(&mut self, max_steps: u64) -> (r: Result<Progress, Trap>)
        ensures
            final(self).program() == old(self).program(),
            match r {
                Ok(Progress::Halted) => runs_to(
                    old(self).program(),
                    old(self).state(),
                    Run::Going(final(self).state()),
                ),
                Ok(Progress::OutOfSteps) => advance(
                    old(self).program(),
                    old(self).state(),
                    max_steps as nat,
                ) == Run::Going(final(self).state()) && final(self).state().pc < old(
                    self,
                ).program().len(),
                Err(t) => runs_to(
                    old(self).program(),
                    old(self).state(),
                    Run::Stuck(t, final(self).state()),
                ),
            },
    {
        let ghost p = self.program();
        let ghost s0 = self.state();
        let mut used: u64 = 0;
        proof {
            assert(advance(p, s0, 0) == Run::Going(s0));
        }
        while self.pc < self.instructions.len() && used < max_steps
            invariant
                used <= max_steps,
                p == self.program(),
                p == old(self).program(),
                s0 == old(self).state(),
                advance(p, s0, used as nat) == Run::Going(self.state()),
            decreases max_steps - used,
        {
            match self.next() {
                Ok(()) => {
                    used = used + 1;
                    proof {
                        assert(advance(p, s0, used as nat) == Run::Going(self.state()));
                    }
                },
                Err(t) => {
                    proof {
                        assert(advance(p, s0, used as nat + 1) == Run::Stuck(t, self.state()));
                    }
                    return Err(t);
                },
            }
        }
        if self.pc < self.instructions.len() {
            Ok(Progress::OutOfSteps)
        } else {
            Ok(Progress::Halted)
        }
    }
}

} // verus!
