use vstd::prelude::*;

use crate::bytecode::ByteCode;
use crate::machine::{
    init_state, jump_free, lemma_reaches_trans, lemma_segment_run, lemma_step_reaches,
    observables, reaches, run_straight, runs_to, settled, step, MachineState, Observables, Run,
    StepResult, StraightRun,
};

verus! {

/// Why resolution failed. A jump whose label has no match is a
/// compilation defect and a hard error: leaving its offset at zero would
/// make the jump land on itself and loop forever.
#[derive(Clone, Copy, PartialEq, Eq, Structural, Debug)]
pub enum ResolveError {
    UnknownLabel,
}

/// Whether `i` is the `Label` marker carrying `name`.
pub open spec fn is_label_for(i: ByteCode, name: Seq<char>) -> bool {
    i matches ByteCode::Label(m) && m@ == name
}

/// Whether some `Label` in the sequence carries `name`.
pub open spec fn has_label(p: Seq<ByteCode>, name: Seq<char>) -> bool {
    exists|j: int| 0 <= j < p.len() && is_label_for(p[j], name)
}

/// The position of the first `Label` carrying `name`. Meaningful only
/// when one exists; label generation mints every label once, so the first
/// match is then the only one.
pub open spec fn label_pos(p: Seq<ByteCode>, name: Seq<char>) -> int {
    choose|j: int|
        0 <= j < p.len() && is_label_for(p[j], name) && (forall|k: int|
            0 <= k < j ==> !is_label_for(p[k], name))
}

/// The first matching position is the position the resolver assigns.
proof fn lemma_label_pos_unique(p: Seq<ByteCode>, name: Seq<char>, j: int)
    requires
        0 <= j < p.len(),
        is_label_for(p[j], name),
        forall|k: int| 0 <= k < j ==> !is_label_for(p[k], name),
    ensures
        label_pos(p, name) == j,
{
    let j2 = label_pos(p, name);
    assert(0 <= j2 < p.len() && is_label_for(p[j2], name) && (forall|k: int|
        0 <= k < j2 ==> !is_label_for(p[k], name)));
}

/// Whether the jump `i`, if it is one, can be resolved within `p`.
pub open spec fn jump_label_ok(p: Seq<ByteCode>, i: ByteCode) -> bool {
    match i {
        ByteCode::Jz { label, offset: _ } => has_label(p, label@),
        ByteCode::JNz { label, offset: _ } => has_label(p, label@),
        ByteCode::Jmp { label, offset: _ } => has_label(p, label@),
        _ => true,
    }
}

/// Whether every jump in `p` names a label that `p` carries.
pub open spec fn all_jumps_resolvable(p: Seq<ByteCode>) -> bool {
    forall|k: int| 0 <= k < p.len() ==> jump_label_ok(p, #[trigger] p[k])
}

/// Instruction `k` of `p` after resolution: a jump's offset becomes the
/// index of its label minus the jump's own index — the delta added to the
/// program counter before the implicit advance by one — and every other
/// instruction stands unchanged.
pub open spec fn resolved_instr(p: Seq<ByteCode>, k: int) -> ByteCode {
    match p[k] {
        ByteCode::Jz { label, offset: _ } => ByteCode::Jz {
            label,
            offset: (label_pos(p, label@) - k) as i64,
        },
        ByteCode::JNz { label, offset: _ } => ByteCode::JNz {
            label,
            offset: (label_pos(p, label@) - k) as i64,
        },
        ByteCode::Jmp { label, offset: _ } => ByteCode::Jmp {
            label,
            offset: (label_pos(p, label@) - k) as i64,
        },
        i => i,
    }
}

/// Scans for the first `Label` carrying `name`.
fn find_label(code: &Vec<ByteCode>, name: &String) -> (r: Option<usize>)
    ensures
        match r {
            Some(j) => j < code@.len() && is_label_for(code@[j as int], name@) && (forall|k: int|
                0 <= k < j ==> !is_label_for(code@[k], name@)),
            None => !has_label(code@, name@),
        },
{
    for j in 0..code.len()
        invariant
            forall|k: int| 0 <= k < j ==> !is_label_for(code@[k], name@),
    {
        if let ByteCode::Label(m) = &code[j] {
            if m.eq(name) {
                return Some(j);
            }
        }
    }
    None
}

/// Converts every symbolic jump target in `code` into a signed relative
/// offset, as `resolved_instr` gives it; all other instructions stand
/// unchanged. When some jump names a label the sequence does not carry,
/// nothing is changed and the defect is reported. Must run after any pass
/// that changes instruction count, because offsets are computed from
/// instruction indices within this final sequence.
pub fn resolve_labels(code: &mut Vec<ByteCode>) -> (r: Result<(), ResolveError>)
    requires
        old(code)@.len() < 0x8000_0000_0000_0000,
    ensures
        match r {
            Ok(()) => {
                &&& all_jumps_resolvable(old(code)@)
                &&& final(code)@.len() == old(code)@.len()
                &&& forall|k: int| 0 <= k < old(code)@.len()
                    ==> final(code)@[k] == resolved_instr(old(code)@, k)
            },
            Err(ResolveError::UnknownLabel) => {
                &&& !all_jumps_resolvable(old(code)@)
                &&& *final(code) == *old(code)
            },
        },
{
    let ghost p = code@;
    let mut resolved: Vec<ByteCode> = Vec::new();
    for k in 0..code.len()
        invariant
            p == code@,
            p.len() < 0x8000_0000_0000_0000,
            resolved@.len() == k,
            forall|m: int| 0 <= m < k ==> resolved@[m] == resolved_instr(p, m),
            forall|m: int| 0 <= m < k ==> jump_label_ok(p, #[trigger] p[m]),
    {
        match &code[k] {
            ByteCode::Jz { label, offset: _ } => {
                match find_label(code, label) {
                    Some(j) => {
                        proof {
                            lemma_label_pos_unique(p, label@, j as int);
                        }
                        let off: i64 = j as i64 - k as i64;
                        resolved.push(ByteCode::Jz { label: label.clone(), offset: off });
                    },
                    None => {
                        return Err(ResolveError::UnknownLabel);
                    },
                }
            },
            ByteCode::JNz { label, offset: _ } => {
                match find_label(code, label) {
                    Some(j) => {
                        proof {
                            lemma_label_pos_unique(p, label@, j as int);
                        }
                        let off: i64 = j as i64 - k as i64;
                        resolved.push(ByteCode::JNz { label: label.clone(), offset: off });
                    },
                    None => {
                        return Err(ResolveError::UnknownLabel);
                    },
                }
            },
            ByteCode::Jmp { label, offset: _ } => {
                match find_label(code, label) {
                    Some(j) => {
                        proof {
                            lemma_label_pos_unique(p, label@, j as int);
                        }
                        let off: i64 = j as i64 - k as i64;
                        resolved.push(ByteCode::Jmp { label: label.clone(), offset: off });
                    },
                    None => {
                        return Err(ResolveError::UnknownLabel);
                    },
                }
            },
            _ => {
                resolved.push(code[k].dup());
            },
        }
    }
    *code = resolved;
    Ok(())
}

/// Label round-trip for a generated `if`, at its branch jump. The code of
/// an `if` is the condition code `c`, the branch jump, the then code `t`,
/// the jump to the end, the else marker, the else code `e`, and the end
/// marker; resolution gives the branch jump the offset `t.len() + 2`,
/// its marker's index minus its own. Executing the branch jump with the
/// condition's value on top of the stack then lands exactly once in the
/// intended branch: on 0, at the first instruction after the else marker
/// — never inside `t`; on anything else, at the first instruction of
/// `t`. Nothing but the program counter and the popped condition changes.
pub proof fn lemma_if_branch_selection(
    c: Seq<ByteCode>,
    t: Seq<ByteCode>,
    e: Seq<ByteCode>,
    else_label: String,
    end_label: String,
    s: MachineState,
)
    requires
        t.len() + 2 < 0x8000_0000_0000_0000,
        e.len() + 2 < 0x8000_0000_0000_0000,
        s.pc == c.len(),
        s.stack.len() > 0,
    ensures
        ({
            let p = c + seq![
                ByteCode::Jz { label: else_label, offset: (t.len() + 2) as i64 },
            ] + t + seq![
                ByteCode::Jmp { label: end_label, offset: (e.len() + 2) as i64 },
                ByteCode::Label(else_label),
            ] + e + seq![ByteCode::Label(end_label)];
            step(p, s) == StepResult::Next(
                MachineState {
                    stack: s.stack.drop_last(),
                    pc: if s.stack.last() == 0 {
                        c.len() + t.len() + 3int
                    } else {
                        c.len() + 1int
                    },
                    ..s
                },
            )
        }),
{
    let p = c + seq![ByteCode::Jz { label: else_label, offset: (t.len() + 2) as i64 }] + t
        + seq![
        ByteCode::Jmp { label: end_label, offset: (e.len() + 2) as i64 },
        ByteCode::Label(else_label),
    ] + e + seq![ByteCode::Label(end_label)];
    assert(p.len() == c.len() + t.len() + e.len() + 4);
    assert(p[s.pc] == ByteCode::Jz { label: else_label, offset: (t.len() + 2) as i64 });
}

/// Label round-trip for a generated `if`, at the end of its then branch:
/// the jump there skips the whole else branch and lands exactly at the
/// end of the construct.
pub proof fn lemma_if_then_exit(
    c: Seq<ByteCode>,
    t: Seq<ByteCode>,
    e: Seq<ByteCode>,
    else_label: String,
    end_label: String,
    s: MachineState,
)
    requires
        t.len() + 2 < 0x8000_0000_0000_0000,
        e.len() + 2 < 0x8000_0000_0000_0000,
        s.pc == c.len() + t.len() + 1,
    ensures
        ({
            let p = c + seq![
                ByteCode::Jz { label: else_label, offset: (t.len() + 2) as i64 },
            ] + t + seq![
                ByteCode::Jmp { label: end_label, offset: (e.len() + 2) as i64 },
                ByteCode::Label(else_label),
            ] + e + seq![ByteCode::Label(end_label)];
            step(p, s) == StepResult::Next(MachineState { pc: p.len() as int, ..s })
        }),
{
    let p = c + seq![ByteCode::Jz { label: else_label, offset: (t.len() + 2) as i64 }] + t
        + seq![
        ByteCode::Jmp { label: end_label, offset: (e.len() + 2) as i64 },
        ByteCode::Label(else_label),
    ] + e + seq![ByteCode::Label(end_label)];
    assert(p.len() == c.len() + t.len() + e.len() + 4);
    assert(p[s.pc] == ByteCode::Jmp { label: end_label, offset: (e.len() + 2) as i64 });
}

/// Label round-trip for a generated `while`, at its exit jump. The code
/// is the loop marker, the condition code `c`, the exit jump, the body
/// `b`, the back jump and the end marker. A condition value of 0 leaves
/// the loop at once, running nothing of the body; any other value lands
/// at the body's first instruction.
pub proof fn lemma_while_branch_selection(
    c: Seq<ByteCode>,
    b: Seq<ByteCode>,
    start_label: String,
    end_label: String,
    s: MachineState,
)
    requires
        b.len() + 2 < 0x8000_0000_0000_0000,
        c.len() + b.len() + 2 < 0x8000_0000_0000_0000,
        s.pc == 1 + c.len(),
        s.stack.len() > 0,
    ensures
        ({
            let p = seq![ByteCode::Label(start_label)] + c + seq![
                ByteCode::Jz { label: end_label, offset: (b.len() + 2) as i64 },
            ] + b + seq![
                ByteCode::Jmp {
                    label: start_label,
                    offset: (-(2 + c.len() + b.len() as int)) as i64,
                },
                ByteCode::Label(end_label),
            ];
            step(p, s) == StepResult::Next(
                MachineState {
                    stack: s.stack.drop_last(),
                    pc: if s.stack.last() == 0 {
                        p.len() as int
                    } else {
                        c.len() + 2int
                    },
                    ..s
                },
            )
        }),
{
    let p = seq![ByteCode::Label(start_label)] + c + seq![
        ByteCode::Jz { label: end_label, offset: (b.len() + 2) as i64 },
    ] + b + seq![
        ByteCode::Jmp { label: start_label, offset: (-(2 + c.len() + b.len() as int)) as i64 },
        ByteCode::Label(end_label),
    ];
    assert(p.len() == c.len() + b.len() + 4);
    assert(p[s.pc] == ByteCode::Jz { label: end_label, offset: (b.len() + 2) as i64 });
}

/// Label round-trip for a generated `while`, at its back jump: the jump
/// returns exactly to the first instruction of the condition, so the
/// condition decides every iteration anew.
pub proof fn lemma_while_back_jump(
    c: Seq<ByteCode>,
    b: Seq<ByteCode>,
    start_label: String,
    end_label: String,
    s: MachineState,
)
    requires
        b.len() + 2 < 0x8000_0000_0000_0000,
        c.len() + b.len() + 2 < 0x8000_0000_0000_0000,
        s.pc == 2 + c.len() + b.len(),
    ensures
        ({
            let p = seq![ByteCode::Label(start_label)] + c + seq![
                ByteCode::Jz { label: end_label, offset: (b.len() + 2) as i64 },
            ] + b + seq![
                ByteCode::Jmp {
                    label: start_label,
                    offset: (-(2 + c.len() + b.len() as int)) as i64,
                },
                ByteCode::Label(end_label),
            ];
            step(p, s) == StepResult::Next(MachineState { pc: 1, ..s })
        }),
{
    let p = seq![ByteCode::Label(start_label)] + c + seq![
        ByteCode::Jz { label: end_label, offset: (b.len() + 2) as i64 },
    ] + b + seq![
        ByteCode::Jmp { label: start_label, offset: (-(2 + c.len() + b.len() as int)) as i64 },
        ByteCode::Label(end_label),
    ];
    assert(p.len() == c.len() + b.len() + 4);
    assert(p[s.pc] == ByteCode::Jmp {
        label: start_label,
        offset: (-(2 + c.len() + b.len() as int)) as i64,
    });
}

/// Code with neither jumps nor label markers in it: what compiling
/// expressions and simple statements produces.
pub open spec fn plain_code(p: Seq<ByteCode>) -> bool {
    forall|k: int| 0 <= k < p.len()
        ==> !crate::machine::is_jump(#[trigger] p[k]) && !(p[k] is Label)
}

/// The symbolic code of an `if`, as the generator emits it: the jump
/// targets are still names, the offsets still 0.
pub open spec fn symbolic_if(
    c: Seq<ByteCode>,
    t: Seq<ByteCode>,
    e: Seq<ByteCode>,
    else_label: String,
    end_label: String,
) -> Seq<ByteCode> {
    c + seq![ByteCode::Jz { label: else_label, offset: 0 }] + t + seq![
        ByteCode::Jmp { label: end_label, offset: 0 },
        ByteCode::Label(else_label),
    ] + e + seq![ByteCode::Label(end_label)]
}

/// The symbolic code of a `while`, as the generator emits it.
pub open spec fn symbolic_while(
    c: Seq<ByteCode>,
    b: Seq<ByteCode>,
    start_label: String,
    end_label: String,
) -> Seq<ByteCode> {
    seq![ByteCode::Label(start_label)] + c + seq![
        ByteCode::Jz { label: end_label, offset: 0 },
    ] + b + seq![
        ByteCode::Jmp { label: start_label, offset: 0 },
        ByteCode::Label(end_label),
    ]
}

/// The resolved code of an `if`, as the generator shapes it and the
/// resolver patches it.
pub open spec fn resolved_if(
    c: Seq<ByteCode>,
    t: Seq<ByteCode>,
    e: Seq<ByteCode>,
    else_label: String,
    end_label: String,
) -> Seq<ByteCode> {
    c + seq![ByteCode::Jz { label: else_label, offset: (t.len() + 2) as i64 }] + t + seq![
        ByteCode::Jmp { label: end_label, offset: (e.len() + 2) as i64 },
        ByteCode::Label(else_label),
    ] + e + seq![ByteCode::Label(end_label)]
}

/// The resolved code of a `while`, as the generator shapes it and the
/// resolver patches it.
pub open spec fn resolved_while(
    c: Seq<ByteCode>,
    b: Seq<ByteCode>,
    start_label: String,
    end_label: String,
) -> Seq<ByteCode> {
    seq![ByteCode::Label(start_label)] + c + seq![
        ByteCode::Jz { label: end_label, offset: (b.len() + 2) as i64 },
    ] + b + seq![
        ByteCode::Jmp { label: start_label, offset: (-(2 + c.len() + b.len() as int)) as i64 },
        ByteCode::Label(end_label),
    ]
}

/// Resolution of a generated `if`: on the symbolic shape with plain
/// condition and branch code and two distinct minted labels, the
/// resolver finds each label exactly where the generator put it, and the
/// result is precisely the resolved shape the execution lemmas run.
pub proof fn lemma_resolve_if_shape(
    c: Seq<ByteCode>,
    t: Seq<ByteCode>,
    e: Seq<ByteCode>,
    else_label: String,
    end_label: String,
)
    requires
        plain_code(c),
        plain_code(t),
        plain_code(e),
        else_label@ != end_label@,
        t.len() + 2 < 0x8000_0000_0000_0000,
        e.len() + 2 < 0x8000_0000_0000_0000,
    ensures
        all_jumps_resolvable(symbolic_if(c, t, e, else_label, end_label)),
        forall|k: int| 0 <= k < symbolic_if(c, t, e, else_label, end_label).len()
            ==> resolved_instr(symbolic_if(c, t, e, else_label, end_label), k) == resolved_if(
            c,
            t,
            e,
            else_label,
            end_label,
        )[k],
{
    let sym = symbolic_if(c, t, e, else_label, end_label);
    let res = resolved_if(c, t, e, else_label, end_label);
    let cl = c.len() as int;
    let tl = t.len() as int;
    let el = e.len() as int;
    assert(sym.len() == cl + tl + el + 4);
    assert(res.len() == cl + tl + el + 4);

    // the else marker is the first label carrying its name
    assert(is_label_for(sym[cl + tl + 2], else_label@));
    assert forall|k: int| 0 <= k < cl + tl + 2 implies !is_label_for(
        #[trigger] sym[k],
        else_label@,
    ) by {
        if k < cl {
            assert(sym[k] == c[k]);
        } else if cl < k < cl + 1 + tl {
            assert(sym[k] == t[k - (cl + 1)]);
        }
    }
    lemma_label_pos_unique(sym, else_label@, cl + tl + 2);

    // the end marker is the first label carrying its name
    assert(is_label_for(sym[cl + tl + 3 + el], end_label@));
    assert forall|k: int| 0 <= k < cl + tl + 3 + el implies !is_label_for(
        #[trigger] sym[k],
        end_label@,
    ) by {
        if k < cl {
            assert(sym[k] == c[k]);
        } else if cl < k < cl + 1 + tl {
            assert(sym[k] == t[k - (cl + 1)]);
        } else if k == cl + tl + 2 {
            assert(sym[k] == ByteCode::Label(else_label));
        } else if cl + tl + 3 <= k {
            assert(sym[k] == e[k - (cl + tl + 3)]);
        }
    }
    lemma_label_pos_unique(sym, end_label@, cl + tl + 3 + el);

    assert forall|k: int| 0 <= k < sym.len() implies resolved_instr(sym, k) == res[k] by {
        if k < cl {
            assert(sym[k] == c[k]);
            assert(res[k] == c[k]);
        } else if k == cl {
            assert(sym[k] == ByteCode::Jz { label: else_label, offset: 0 });
            assert(res[k] == ByteCode::Jz { label: else_label, offset: (t.len() + 2) as i64 });
        } else if k < cl + 1 + tl {
            assert(sym[k] == t[k - (cl + 1)]);
            assert(res[k] == t[k - (cl + 1)]);
        } else if k == cl + 1 + tl {
            assert(sym[k] == ByteCode::Jmp { label: end_label, offset: 0 });
            assert(res[k] == ByteCode::Jmp { label: end_label, offset: (e.len() + 2) as i64 });
        } else if k == cl + tl + 2 {
            assert(sym[k] == ByteCode::Label(else_label));
            assert(res[k] == ByteCode::Label(else_label));
        } else if k < cl + tl + 3 + el {
            assert(sym[k] == e[k - (cl + tl + 3)]);
            assert(res[k] == e[k - (cl + tl + 3)]);
        } else {
            assert(sym[k] == ByteCode::Label(end_label));
            assert(res[k] == ByteCode::Label(end_label));
        }
    }
    assert forall|k: int| 0 <= k < sym.len() implies jump_label_ok(sym, #[trigger] sym[k]) by {
        if k < cl {
            assert(sym[k] == c[k]);
        } else if cl < k < cl + 1 + tl {
            assert(sym[k] == t[k - (cl + 1)]);
        } else if cl + tl + 3 <= k < cl + tl + 3 + el {
            assert(sym[k] == e[k - (cl + tl + 3)]);
        }
    }
}

/// Resolution of a generated `while`: on the symbolic shape with plain
/// condition and body code and two distinct minted labels, the resolver
/// patches the exit jump forward past the loop and the back jump to the
/// loop marker, giving precisely the resolved shape the execution lemmas
/// run.
pub proof fn lemma_resolve_while_shape(
    c: Seq<ByteCode>,
    b: Seq<ByteCode>,
    start_label: String,
    end_label: String,
)
    requires
        plain_code(c),
        plain_code(b),
        start_label@ != end_label@,
        b.len() + 2 < 0x8000_0000_0000_0000,
        c.len() + b.len() + 2 < 0x8000_0000_0000_0000,
    ensures
        all_jumps_resolvable(symbolic_while(c, b, start_label, end_label)),
        forall|k: int| 0 <= k < symbolic_while(c, b, start_label, end_label).len()
            ==> resolved_instr(symbolic_while(c, b, start_label, end_label), k)
            == resolved_while(c, b, start_label, end_label)[k],
{
    let sym = symbolic_while(c, b, start_label, end_label);
    let res = resolved_while(c, b, start_label, end_label);
    let cl = c.len() as int;
    let bl = b.len() as int;
    assert(sym.len() == cl + bl + 4);
    assert(res.len() == cl + bl + 4);

    // the loop marker is the first label carrying its name
    assert(is_label_for(sym[0], start_label@));
    lemma_label_pos_unique(sym, start_label@, 0);

    // the end marker is the first label carrying its name
    assert(is_label_for(sym[cl + bl + 3], end_label@));
    assert forall|k: int| 0 <= k < cl + bl + 3 implies !is_label_for(
        #[trigger] sym[k],
        end_label@,
    ) by {
        if k == 0 {
            assert(sym[k] == ByteCode::Label(start_label));
        } else if k < 1 + cl {
            assert(sym[k] == c[k - 1]);
        } else if 1 + cl < k < 2 + cl + bl {
            assert(sym[k] == b[k - (2 + cl)]);
        }
    }
    lemma_label_pos_unique(sym, end_label@, cl + bl + 3);

    assert forall|k: int| 0 <= k < sym.len() implies resolved_instr(sym, k) == res[k] by {
        if k == 0 {
            assert(sym[k] == ByteCode::Label(start_label));
            assert(res[k] == ByteCode::Label(start_label));
        } else if k < 1 + cl {
            assert(sym[k] == c[k - 1]);
            assert(res[k] == c[k - 1]);
        } else if k == 1 + cl {
            assert(sym[k] == ByteCode::Jz { label: end_label, offset: 0 });
            assert(res[k] == ByteCode::Jz { label: end_label, offset: (b.len() + 2) as i64 });
        } else if k < 2 + cl + bl {
            assert(sym[k] == b[k - (2 + cl)]);
            assert(res[k] == b[k - (2 + cl)]);
        } else if k == 2 + cl + bl {
            assert(sym[k] == ByteCode::Jmp { label: start_label, offset: 0 });
            assert(res[k] == ByteCode::Jmp {
                label: start_label,
                offset: (-(2 + c.len() + b.len() as int)) as i64,
            });
        } else {
            assert(sym[k] == ByteCode::Label(end_label));
            assert(res[k] == ByteCode::Label(end_label));
        }
    }
    assert forall|k: int| 0 <= k < sym.len() implies jump_label_ok(sym, #[trigger] sym[k]) by {
        if 0 < k < 1 + cl {
            assert(sym[k] == c[k - 1]);
        } else if 1 + cl < k < 2 + cl + bl {
            assert(sym[k] == b[k - (2 + cl)]);
        }
    }
}

/// Label round trip of a whole `if` on a false condition: when the
/// straight-line condition code computes 0, the construct runs to its
/// end having performed exactly the condition and then the else branch —
/// the then branch contributes nothing, whatever straight-line
/// instructions stand in it.
pub proof fn lemma_if_false_round_trip(
    c: Seq<ByteCode>,
    t: Seq<ByteCode>,
    e: Seq<ByteCode>,
    else_label: String,
    end_label: String,
    oc: Observables,
    oe: Observables,
)
    requires
        jump_free(c),
        jump_free(e),
        t.len() + 2 < 0x8000_0000_0000_0000,
        e.len() + 2 < 0x8000_0000_0000_0000,
        run_straight(c, observables(init_state())) == StraightRun::Done(oc),
        oc.stack.len() == 1,
        oc.stack.last() == 0,
        run_straight(
            e,
            Observables { stack: Seq::empty(), vars: oc.vars, output: oc.output },
        ) == StraightRun::Done(oe),
    ensures
        runs_to(
            resolved_if(c, t, e, else_label, end_label),
            init_state(),
            Run::Going(
                MachineState {
                    stack: oe.stack,
                    vars: oe.vars,
                    pc: resolved_if(c, t, e, else_label, end_label).len() as int,
                    output: oe.output,
                },
            ),
        ),
{
    let p = resolved_if(c, t, e, else_label, end_label);
    let s0 = init_state();
    let cl = c.len() as int;
    let tl = t.len() as int;
    let el = e.len() as int;
    assert(p.len() == cl + tl + el + 4);

    // the condition code runs first, unchanged by what follows it
    assert(p.subrange(0, cl) =~= c);
    assert forall|k: int| 0 <= k < cl implies !crate::machine::is_jump(#[trigger] p[k]) by {
        assert(p[k] == c[k]);
    }
    lemma_segment_run(p, s0, cl);
    let s1 = MachineState { stack: oc.stack, vars: oc.vars, pc: cl, output: oc.output };

    // the branch jump pops the 0 and lands at the else branch
    lemma_if_branch_selection(c, t, e, else_label, end_label, s1);
    let s2 = MachineState { stack: oc.stack.drop_last(), pc: cl + tl + 3, ..s1 };
    lemma_step_reaches(p, s1, s2);
    lemma_reaches_trans(p, s0, s1, s2);
    assert(oc.stack.drop_last() =~= Seq::<u64>::empty());
    assert(observables(s2) == Observables {
        stack: Seq::<u64>::empty(),
        vars: oc.vars,
        output: oc.output,
    });

    // the else branch runs to its end
    assert(p.subrange(cl + tl + 3, cl + tl + 3 + el) =~= e);
    assert forall|k: int| cl + tl + 3 <= k < cl + tl + 3 + el implies !crate::machine::is_jump(
        #[trigger] p[k],
    ) by {
        assert(p[k] == e[k - (cl + tl + 3)]);
    }
    lemma_segment_run(p, s2, cl + tl + 3 + el);
    assert(run_straight(p.subrange(cl + tl + 3, cl + tl + 3 + el), observables(s2))
        == StraightRun::Done(oe));
    let s3 = MachineState { stack: oe.stack, vars: oe.vars, pc: cl + tl + 3 + el, output: oe.output };
    lemma_reaches_trans(p, s0, s2, s3);

    // the closing marker does nothing and the counter passes the end
    assert(p[cl + tl + 3 + el] == ByteCode::Label(end_label));
    let s4 = MachineState { pc: p.len() as int, ..s3 };
    assert(step(p, s3) == StepResult::Next(s4));
    lemma_step_reaches(p, s3, s4);
    lemma_reaches_trans(p, s0, s3, s4);
    assert(settled(p, Run::Going(s4)));
}

/// Label round trip of a whole `if` on a true condition: when the
/// straight-line condition code computes anything but 0, the construct
/// runs to its end having performed exactly the condition and then the
/// then branch — the else branch contributes nothing, whatever
/// straight-line instructions stand in it.
pub proof fn lemma_if_true_round_trip(
    c: Seq<ByteCode>,
    t: Seq<ByteCode>,
    e: Seq<ByteCode>,
    else_label: String,
    end_label: String,
    oc: Observables,
    ot: Observables,
)
    requires
        jump_free(c),
        jump_free(t),
        t.len() + 2 < 0x8000_0000_0000_0000,
        e.len() + 2 < 0x8000_0000_0000_0000,
        run_straight(c, observables(init_state())) == StraightRun::Done(oc),
        oc.stack.len() == 1,
        oc.stack.last() != 0,
        run_straight(
            t,
            Observables { stack: Seq::empty(), vars: oc.vars, output: oc.output },
        ) == StraightRun::Done(ot),
    ensures
        runs_to(
            resolved_if(c, t, e, else_label, end_label),
            init_state(),
            Run::Going(
                MachineState {
                    stack: ot.stack,
                    vars: ot.vars,
                    pc: resolved_if(c, t, e, else_label, end_label).len() as int,
                    output: ot.output,
                },
            ),
        ),
{
    let p = resolved_if(c, t, e, else_label, end_label);
    let s0 = init_state();
    let cl = c.len() as int;
    let tl = t.len() as int;
    let el = e.len() as int;
    assert(p.len() == cl + tl + el + 4);

    // the condition code runs first
    assert(p.subrange(0, cl) =~= c);
    assert forall|k: int| 0 <= k < cl implies !crate::machine::is_jump(#[trigger] p[k]) by {
        assert(p[k] == c[k]);
    }
    lemma_segment_run(p, s0, cl);
    let s1 = MachineState { stack: oc.stack, vars: oc.vars, pc: cl, output: oc.output };

    // the branch jump pops the value and falls through to the then branch
    lemma_if_branch_selection(c, t, e, else_label, end_label, s1);
    let s2 = MachineState { stack: oc.stack.drop_last(), pc: cl + 1, ..s1 };
    lemma_step_reaches(p, s1, s2);
    lemma_reaches_trans(p, s0, s1, s2);
    assert(oc.stack.drop_last() =~= Seq::<u64>::empty());
    assert(observables(s2) == Observables {
        stack: Seq::<u64>::empty(),
        vars: oc.vars,
        output: oc.output,
    });

    // the then branch runs to its end
    assert(p.subrange(cl + 1, cl + 1 + tl) =~= t);
    assert forall|k: int| cl + 1 <= k < cl + 1 + tl implies !crate::machine::is_jump(
        #[trigger] p[k],
    ) by {
        assert(p[k] == t[k - (cl + 1)]);
    }
    lemma_segment_run(p, s2, cl + 1 + tl);
    assert(run_straight(p.subrange(cl + 1, cl + 1 + tl), observables(s2)) == StraightRun::Done(
        ot,
    ));
    let s3 = MachineState { stack: ot.stack, vars: ot.vars, pc: cl + 1 + tl, output: ot.output };
    lemma_reaches_trans(p, s0, s2, s3);

    // the jump at the end of the then branch skips the whole else branch
    lemma_if_then_exit(c, t, e, else_label, end_label, s3);
    let s4 = MachineState { pc: p.len() as int, ..s3 };
    lemma_step_reaches(p, s3, s4);
    lemma_reaches_trans(p, s0, s3, s4);
    assert(settled(p, Run::Going(s4)));
}

/// Label round trip of a `while` whose condition computes 0 at entry:
/// the loop is left at once, and nothing of the body runs, whatever
/// straight-line instructions stand in it.
pub proof fn lemma_while_false_round_trip(
    c: Seq<ByteCode>,
    b: Seq<ByteCode>,
    start_label: String,
    end_label: String,
    oc: Observables,
)
    requires
        jump_free(c),
        b.len() + 2 < 0x8000_0000_0000_0000,
        c.len() + b.len() + 2 < 0x8000_0000_0000_0000,
        run_straight(c, observables(init_state())) == StraightRun::Done(oc),
        oc.stack.len() == 1,
        oc.stack.last() == 0,
    ensures
        runs_to(
            resolved_while(c, b, start_label, end_label),
            init_state(),
            Run::Going(
                MachineState {
                    stack: Seq::empty(),
                    vars: oc.vars,
                    pc: resolved_while(c, b, start_label, end_label).len() as int,
                    output: oc.output,
                },
            ),
        ),
{
    let p = resolved_while(c, b, start_label, end_label);
    let s0 = init_state();
    let cl = c.len() as int;
    let bl = b.len() as int;
    assert(p.len() == cl + bl + 4);

    // the loop marker does nothing
    assert(p[0] == ByteCode::Label(start_label));
    let s1 = MachineState { pc: 1, ..s0 };
    assert(step(p, s0) == StepResult::Next(s1));
    lemma_step_reaches(p, s0, s1);

    // the condition code runs
    assert(p.subrange(1, 1 + cl) =~= c);
    assert forall|k: int| 1 <= k < 1 + cl implies !crate::machine::is_jump(#[trigger] p[k]) by {
        assert(p[k] == c[k - 1]);
    }
    lemma_segment_run(p, s1, 1 + cl);
    assert(observables(s1) == observables(init_state()));
    let s2 = MachineState { stack: oc.stack, vars: oc.vars, pc: 1 + cl, output: oc.output };
    lemma_reaches_trans(p, s0, s1, s2);

    // the exit jump pops the 0 and leaves the loop
    lemma_while_branch_selection(c, b, start_label, end_label, s2);
    let s3 = MachineState { stack: oc.stack.drop_last(), pc: p.len() as int, ..s2 };
    lemma_step_reaches(p, s2, s3);
    lemma_reaches_trans(p, s0, s2, s3);
    assert(oc.stack.drop_last() =~= Seq::<u64>::empty());
    assert(settled(p, Run::Going(s3)));
}

/// Label round trip of one `while` iteration: when the condition
/// computes anything but 0, the body runs exactly once and the back jump
/// returns the machine to the first instruction of the condition, ready
/// to decide the next iteration anew.
pub proof fn lemma_while_iteration_round_trip(
    c: Seq<ByteCode>,
    b: Seq<ByteCode>,
    start_label: String,
    end_label: String,
    oc: Observables,
    ob: Observables,
)
    requires
        jump_free(c),
        jump_free(b),
        b.len() + 2 < 0x8000_0000_0000_0000,
        c.len() + b.len() + 2 < 0x8000_0000_0000_0000,
        run_straight(c, observables(init_state())) == StraightRun::Done(oc),
        oc.stack.len() == 1,
        oc.stack.last() != 0,
        run_straight(
            b,
            Observables { stack: Seq::empty(), vars: oc.vars, output: oc.output },
        ) == StraightRun::Done(ob),
    ensures
        reaches(
            resolved_while(c, b, start_label, end_label),
            init_state(),
            MachineState { stack: ob.stack, vars: ob.vars, pc: 1, output: ob.output },
        ),
{
    let p = resolved_while(c, b, start_label, end_label);
    let s0 = init_state();
    let cl = c.len() as int;
    let bl = b.len() as int;
    assert(p.len() == cl + bl + 4);

    // the loop marker does nothing
    assert(p[0] == ByteCode::Label(start_label));
    let s1 = MachineState { pc: 1, ..s0 };
    assert(step(p, s0) == StepResult::Next(s1));
    lemma_step_reaches(p, s0, s1);

    // the condition code runs
    assert(p.subrange(1, 1 + cl) =~= c);
    assert forall|k: int| 1 <= k < 1 + cl implies !crate::machine::is_jump(#[trigger] p[k]) by {
        assert(p[k] == c[k - 1]);
    }
    lemma_segment_run(p, s1, 1 + cl);
    assert(observables(s1) == observables(init_state()));
    let s2 = MachineState { stack: oc.stack, vars: oc.vars, pc: 1 + cl, output: oc.output };
    lemma_reaches_trans(p, s0, s1, s2);

    // the exit jump pops the value and falls through into the body
    lemma_while_branch_selection(c, b, start_label, end_label, s2);
    let s3 = MachineState { stack: oc.stack.drop_last(), pc: cl + 2, ..s2 };
    lemma_step_reaches(p, s2, s3);
    lemma_reaches_trans(p, s0, s2, s3);
    assert(oc.stack.drop_last() =~= Seq::<u64>::empty());
    assert(observables(s3) == Observables {
        stack: Seq::<u64>::empty(),
        vars: oc.vars,
        output: oc.output,
    });

    // the body runs to its end
    assert(p.subrange(cl + 2, cl + 2 + bl) =~= b);
    assert forall|k: int| cl + 2 <= k < cl + 2 + bl implies !crate::machine::is_jump(
        #[trigger] p[k],
    ) by {
        assert(p[k] == b[k - (cl + 2)]);
    }
    lemma_segment_run(p, s3, cl + 2 + bl);
    assert(run_straight(p.subrange(cl + 2, cl + 2 + bl), observables(s3)) == StraightRun::Done(
        ob,
    ));
    let s4 = MachineState { stack: ob.stack, vars: ob.vars, pc: cl + 2 + bl, output: ob.output };
    lemma_reaches_trans(p, s0, s3, s4);

    // the back jump returns to the condition
    lemma_while_back_jump(c, b, start_label, end_label, s4);
    let s5 = MachineState { pc: 1, ..s4 };
    lemma_step_reaches(p, s4, s5);
    lemma_reaches_trans(p, s0, s4, s5);
}

} // verus!
