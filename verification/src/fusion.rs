use vstd::prelude::*;

use crate::bytecode::ByteCode;
use crate::machine::{
    advance, equiv_runs, init_state, is_jump, jump_free, lemma_run_straight_snoc,
    lemma_straight_to_advance, observables, run_straight, runs_to, step, MachineState,
    Observables, Run, StepResult, StraightRun, Trap,
};

verus! {

/// One step of the peephole: what the already-fused output `acc` becomes
/// when the next input instruction arrives. A `Push` directly before an
/// `Add` folds into `PushAdd`; a `PushAdd` or a bare `Push` directly
/// before an `Assign` folds into `AssignPushAdd` or `PushAssign`. No
/// element of a fused pair is ever a `Label`, so no jump target moves out
/// from under its jumps.
pub open spec fn fuse_step(acc: Seq<ByteCode>, x: ByteCode) -> Seq<ByteCode> {
    if acc.len() == 0 {
        acc.push(x)
    } else {
        match (acc.last(), x) {
            (ByteCode::Push(v), ByteCode::Add) => acc.drop_last().push(ByteCode::PushAdd(v)),
            (ByteCode::PushAdd(v), ByteCode::Assign(name)) => acc.drop_last().push(
                ByteCode::AssignPushAdd { name, value: v },
            ),
            (ByteCode::Push(v), ByteCode::Assign(name)) => acc.drop_last().push(
                ByteCode::PushAssign { name, value: v },
            ),
            (_, other) => acc.push(other),
        }
    }
}

/// The whole single left-to-right peephole scan over `s`.
pub open spec fn fuse(s: Seq<ByteCode>) -> Seq<ByteCode>
    decreases s.len(),
{
    if s.len() == 0 {
        Seq::empty()
    } else {
        fuse_step(fuse(s.drop_last()), s.last())
    }
}

/// Merges adjacent instruction pairs into superinstructions, in one
/// left-to-right pass: the sequence becomes exactly `fuse` of itself.
/// A chain folds up within the pass: `Push`, `Add`, `Assign` becomes a
/// single `AssignPushAdd`. Runs before label resolution, which must see
/// the final instruction indices.
pub fn insert_superinstructions(insts: &mut Vec<ByteCode>)
    ensures
        final(insts)@ == fuse(old(insts)@),
{
    let ghost p = insts@;
    let mut result: Vec<ByteCode> = Vec::new();
    for i in 0..insts.len()
        invariant
            p == insts@,
            result@ == fuse(p.subrange(0, i as int)),
    {
        let fused: Option<ByteCode> = if result.len() > 0 {
            match (&result[result.len() - 1], &insts[i]) {
                (ByteCode::Push(v), ByteCode::Add) => Some(ByteCode::PushAdd(*v)),
                (ByteCode::PushAdd(v), ByteCode::Assign(name)) => Some(
                    ByteCode::AssignPushAdd { name: name.clone(), value: *v },
                ),
                (ByteCode::Push(v), ByteCode::Assign(name)) => Some(
                    ByteCode::PushAssign { name: name.clone(), value: *v },
                ),
                _ => None,
            }
        } else {
            None
        };
        match fused {
            Some(instr) => {
                let _ = result.pop();
                result.push(instr);
            },
            None => {
                result.push(insts[i].dup());
            },
        }
        proof {
            assert(p.subrange(0, i + 1 as int).drop_last() =~= p.subrange(0, i as int));
            assert(p.subrange(0, i + 1 as int).last() == p[i as int]);
            assert(result@ == fuse(p.subrange(0, i + 1 as int)));
        }
    }
    proof {
        assert(p.subrange(0, p.len() as int) =~= p);
    }
    *insts = result;
}

/// The fusion pass introduces no jump.
proof fn lemma_fuse_jump_free(s: Seq<ByteCode>)
    requires
        jump_free(s),
    ensures
        jump_free(fuse(s)),
    decreases s.len(),
{
    if s.len() > 0 {
        assert(jump_free(s.drop_last())) by {
            assert(forall|k: int| 0 <= k < s.len() - 1 ==> s.drop_last()[k] == s[k]);
        }
        lemma_fuse_jump_free(s.drop_last());
        let acc = fuse(s.drop_last());
        let x = s.last();
        assert(!is_jump(x));
        let r = fuse(s);
        assert(r == fuse_step(acc, x));
        assert forall|k: int| 0 <= k < r.len() implies !is_jump(r[k]) by {
            if k < r.len() - 1 {
                assert(r[k] == acc[k]);
            }
        }
    }
}

/// The heart of fusion transparency: the peephole scan preserves the
/// straight-line run, from any starting observables. Each superinstruction
/// performs exactly the work of the pair it replaced, including the trap
/// on an underflowing stack.
proof fn lemma_fuse_run_straight(s: Seq<ByteCode>, o: Observables)
    requires
        jump_free(s),
    ensures
        equiv_runs(run_straight(s, o), run_straight(fuse(s), o)),
    decreases s.len(),
{
    if s.len() == 0 {
        return ;
    }
    let s1 = s.drop_last();
    let x = s.last();
    assert(jump_free(s1)) by {
        assert(forall|k: int| 0 <= k < s1.len() ==> s1[k] == s[k]);
    }
    lemma_fuse_run_straight(s1, o);
    assert(s1.push(x) =~= s);
    lemma_run_straight_snoc(s1, x, o);
    let f1 = fuse(s1);
    if f1.len() == 0 {
        lemma_run_straight_snoc(f1, x, o);
        return ;
    }
    match (f1.last(), x) {
        (ByteCode::Push(v), ByteCode::Add) => {
            let ff = f1.drop_last();
            assert(ff.push(ByteCode::Push(v)) =~= f1);
            lemma_run_straight_snoc(ff, ByteCode::Push(v), o);
            lemma_run_straight_snoc(ff, ByteCode::PushAdd(v), o);
            match run_straight(ff, o) {
                StraightRun::Done(og) => {
                    assert(og.stack.push(v).last() == v);
                    assert(og.stack.push(v).drop_last() =~= og.stack);
                    if og.stack.len() > 0 {
                        assert(og.stack.push(v)[og.stack.push(v).len() - 2] == og.stack.last());
                        assert(og.stack.push(v).drop_last().drop_last() =~= og.stack.drop_last());
                    }
                },
                StraightRun::Aborted(_, _) => {},
            }
        },
        (ByteCode::PushAdd(v), ByteCode::Assign(name)) => {
            let ff = f1.drop_last();
            assert(ff.push(ByteCode::PushAdd(v)) =~= f1);
            lemma_run_straight_snoc(ff, ByteCode::PushAdd(v), o);
            lemma_run_straight_snoc(
                ff,
                ByteCode::AssignPushAdd { name, value: v },
                o,
            );
            match run_straight(ff, o) {
                StraightRun::Done(og) => {
                    if og.stack.len() > 0 {
                        let w = vstd::wrapping::u64_specs::wrapping_add(og.stack.last(), v);
                        assert(vstd::wrapping::u64_specs::wrapping_add(v, og.stack.last()) == w);
                        assert(og.stack.drop_last().push(w).last() == w);
                        assert(og.stack.drop_last().push(w).drop_last() =~= og.stack.drop_last());
                    }
                },
                StraightRun::Aborted(_, _) => {},
            }
        },
        (ByteCode::Push(v), ByteCode::Assign(name)) => {
            let ff = f1.drop_last();
            assert(ff.push(ByteCode::Push(v)) =~= f1);
            lemma_run_straight_snoc(ff, ByteCode::Push(v), o);
            lemma_run_straight_snoc(
                ff,
                ByteCode::PushAssign { name, value: v },
                o,
            );
            match run_straight(ff, o) {
                StraightRun::Done(og) => {
                    assert(og.stack.push(v).last() == v);
                    assert(og.stack.push(v).drop_last() =~= og.stack);
                },
                StraightRun::Aborted(_, _) => {},
            }
        },
        (_, _) => {
            lemma_run_straight_snoc(f1, x, o);
        },
    }
}

/// Fusion transparency: for every jump-free program — and fusion only
/// ever merges straight-line instructions — executing it with and without
/// the fusion pass applied yields identical observables: the same printed
/// output and the same final variable table, and on a defective program
/// the same trap with the same output and variables at the abort. Both
/// runs are whatever the two engines come to rest at, so this law
/// composes with their contracts directly.
pub proof fn lemma_fusion_transparent(p: Seq<ByteCode>, r1: Run, r2: Run)
    requires
        jump_free(p),
        runs_to(p, init_state(), r1),
        runs_to(fuse(p), init_state(), r2),
    ensures
        match (r1, r2) {
            (Run::Going(a), Run::Going(b)) => matching_states(a, b),
            (Run::Stuck(t1, a), Run::Stuck(t2, b)) => t1 == t2 && matching_aborts(a, b),
            _ => false,
        },
{
    lemma_fuse_jump_free(p);
    let s0 = init_state();
    let o0 = observables(s0);
    assert(p.skip(0) =~= p);
    assert(fuse(p).skip(0) =~= fuse(p));
    lemma_straight_to_advance(p, s0);
    lemma_straight_to_advance(fuse(p), s0);
    lemma_fuse_run_straight(p, o0);
    match run_straight(p, o0) {
        StraightRun::Done(o) => {
            let a = MachineState { stack: o.stack, vars: o.vars, pc: p.len() as int, output: o.output };
            crate::machine::lemma_execution_deterministic(p, s0, r1, Run::Going(a));
            match run_straight(fuse(p), o0) {
                StraightRun::Done(ob) => {
                    let b = MachineState {
                        stack: ob.stack,
                        vars: ob.vars,
                        pc: fuse(p).len() as int,
                        output: ob.output,
                    };
                    crate::machine::lemma_execution_deterministic(fuse(p), s0, r2, Run::Going(b));
                },
                StraightRun::Aborted(_, _) => {},
            }
        },
        StraightRun::Aborted(t, o) => {
            let m1 = choose|m: MachineState|
                runs_to(p, s0, Run::Stuck(t, m)) && observables(m) == o;
            crate::machine::lemma_execution_deterministic(p, s0, r1, Run::Stuck(t, m1));
            match run_straight(fuse(p), o0) {
                StraightRun::Done(_) => {},
                StraightRun::Aborted(t2, o2) => {
                    let m2 = choose|m: MachineState|
                        runs_to(fuse(p), s0, Run::Stuck(t2, m)) && observables(m) == o2;
                    crate::machine::lemma_execution_deterministic(fuse(p), s0, r2, Run::Stuck(t2, m2));
                },
            }
        },
    }
}

/// Two states that cannot be told apart by a running program: same
/// operand stack, same variable table, same printed output.
pub open spec fn matching_states(a: MachineState, b: MachineState) -> bool {
    a.stack == b.stack && a.vars == b.vars && a.output == b.output
}

/// Two aborts that look the same from outside: the stack is gone with the
/// aborted run, so only the variable table and the printed output remain.
pub open spec fn matching_aborts(a: MachineState, b: MachineState) -> bool {
    a.vars == b.vars && a.output == b.output
}

/// Fusion transparency for `PushAdd`: from any state, the pair
/// `Push(v); Add` and the superinstruction `PushAdd(v)` run to matching
/// states, or abort with the same trap, the same variable table and the
/// same output.
pub proof fn lemma_push_add_transparent(v: u64, s: MachineState)
    requires
        s.pc == 0,
    ensures
        ({
            let pair = seq![ByteCode::Push(v), ByteCode::Add];
            let single = seq![ByteCode::PushAdd(v)];
            match (advance(pair, s, 2), advance(single, s, 1)) {
                (Run::Going(s1), Run::Going(s2)) => matching_states(s1, s2),
                (Run::Stuck(t1, s1), Run::Stuck(t2, s2)) => t1 == t2 && matching_aborts(s1, s2),
                _ => false,
            }
        }),
{
    let pair = seq![ByteCode::Push(v), ByteCode::Add];
    let single = seq![ByteCode::PushAdd(v)];
    assert(advance(pair, s, 0) == Run::Going(s));
    assert(advance(single, s, 0) == Run::Going(s));
    let s1 = MachineState { stack: s.stack.push(v), pc: 1, ..s };
    assert(step(pair, s) == StepResult::Next(s1));
    assert(advance(pair, s, 1) == Run::Going(s1));
    if s.stack.len() == 0 {
        assert(step(pair, s1) == StepResult::Fault(Trap::StackUnderflow));
        assert(advance(pair, s, 2) == Run::Stuck(Trap::StackUnderflow, s1));
        assert(step(single, s) == StepResult::Fault(Trap::StackUnderflow));
        assert(advance(single, s, 1) == Run::Stuck(Trap::StackUnderflow, s));
    } else {
        let w = vstd::wrapping::u64_specs::wrapping_add(s.stack.last(), v);
        assert(s1.stack.len() >= 2);
        assert(s1.stack[s1.stack.len() - 2] == s.stack.last());
        assert(s1.stack.last() == v);
        assert(s1.stack.drop_last().drop_last() =~= s.stack.drop_last());
        let s2 = MachineState { stack: s.stack.drop_last().push(w), pc: 2, ..s };
        assert(step(pair, s1) == StepResult::Next(s2));
        assert(advance(pair, s, 2) == Run::Going(s2));
        let s3 = MachineState { stack: s.stack.drop_last().push(w), pc: 1, ..s };
        assert(step(single, s) == StepResult::Next(s3));
        assert(advance(single, s, 1) == Run::Going(s3));
        assert(matching_states(s2, s3));
    }
}

/// Fusion transparency for `AssignPushAdd`: the pair `PushAdd(v);
/// Assign(name)` and the superinstruction behave alike; the sum is the
/// same whichever operand the immediate is.
pub proof fn lemma_assign_push_add_transparent(name: String, v: u64, s: MachineState)
    requires
        s.pc == 0,
    ensures
        ({
            let pair = seq![ByteCode::PushAdd(v), ByteCode::Assign(name)];
            let single = seq![ByteCode::AssignPushAdd { name, value: v }];
            match (advance(pair, s, 2), advance(single, s, 1)) {
                (Run::Going(s1), Run::Going(s2)) => matching_states(s1, s2),
                (Run::Stuck(t1, s1), Run::Stuck(t2, s2)) => t1 == t2 && matching_aborts(s1, s2),
                _ => false,
            }
        }),
{
    let pair = seq![ByteCode::PushAdd(v), ByteCode::Assign(name)];
    let single = seq![ByteCode::AssignPushAdd { name, value: v }];
    assert(advance(pair, s, 0) == Run::Going(s));
    assert(advance(single, s, 0) == Run::Going(s));
    if s.stack.len() == 0 {
        assert(step(pair, s) == StepResult::Fault(Trap::StackUnderflow));
        assert(advance(pair, s, 1) == Run::Stuck(Trap::StackUnderflow, s));
        assert(advance(pair, s, 2) == Run::Stuck(Trap::StackUnderflow, s));
        assert(step(single, s) == StepResult::Fault(Trap::StackUnderflow));
        assert(advance(single, s, 1) == Run::Stuck(Trap::StackUnderflow, s));
    } else {
        let a = s.stack.last();
        let w = vstd::wrapping::u64_specs::wrapping_add(a, v);
        assert(vstd::wrapping::u64_specs::wrapping_add(v, a) == w);
        let s1 = MachineState { stack: s.stack.drop_last().push(w), pc: 1, ..s };
        assert(step(pair, s) == StepResult::Next(s1));
        assert(advance(pair, s, 1) == Run::Going(s1));
        assert(s1.stack.last() == w);
        assert(s1.stack.drop_last() =~= s.stack.drop_last());
        let s2 = MachineState {
            stack: s.stack.drop_last(),
            vars: s.vars.insert(name@, w),
            pc: 2,
            ..s
        };
        assert(step(pair, s1) == StepResult::Next(s2));
        assert(advance(pair, s, 2) == Run::Going(s2));
        let s3 = MachineState {
            stack: s.stack.drop_last(),
            vars: s.vars.insert(name@, w),
            pc: 1,
            ..s
        };
        assert(step(single, s) == StepResult::Next(s3));
        assert(advance(single, s, 1) == Run::Going(s3));
        assert(matching_states(s2, s3));
    }
}

/// Fusion transparency for `PushAssign`: the pair `Push(v); Assign(name)`
/// and the superinstruction behave alike; neither can fault.
pub proof fn lemma_push_assign_transparent(name: String, v: u64, s: MachineState)
    requires
        s.pc == 0,
    ensures
        ({
            let pair = seq![ByteCode::Push(v), ByteCode::Assign(name)];
            let single = seq![ByteCode::PushAssign { name, value: v }];
            match (advance(pair, s, 2), advance(single, s, 1)) {
                (Run::Going(s1), Run::Going(s2)) => matching_states(s1, s2),
                _ => false,
            }
        }),
{
    let pair = seq![ByteCode::Push(v), ByteCode::Assign(name)];
    let single = seq![ByteCode::PushAssign { name, value: v }];
    assert(advance(pair, s, 0) == Run::Going(s));
    assert(advance(single, s, 0) == Run::Going(s));
    let s1 = MachineState { stack: s.stack.push(v), pc: 1, ..s };
    assert(step(pair, s) == StepResult::Next(s1));
    assert(advance(pair, s, 1) == Run::Going(s1));
    assert(s1.stack.last() == v);
    assert(s1.stack.drop_last() =~= s.stack);
    let s2 = MachineState { stack: s.stack, vars: s.vars.insert(name@, v), pc: 2, ..s };
    assert(step(pair, s1) == StepResult::Next(s2));
    assert(advance(pair, s, 2) == Run::Going(s2));
    let s3 = MachineState { stack: s.stack, vars: s.vars.insert(name@, v), pc: 1, ..s };
    assert(step(single, s) == StepResult::Next(s3));
    assert(advance(single, s, 1) == Run::Going(s3));
    assert(matching_states(s2, s3));
}

} // verus!
