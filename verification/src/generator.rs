use vstd::prelude::*;
use vstd::string::StringExecFns;

use crate::ast::{BinOp, Expr, LogOp, Stmt};
use crate::bytecode::{lemma_view_push, view_program, ByteCode, InstrView};

verus! {

/// The decimal digit `d` as a character.
pub open spec fn digit_char(d: int) -> char {
    if d == 0 {
        '0'
    } else if d == 1 {
        '1'
    } else if d == 2 {
        '2'
    } else if d == 3 {
        '3'
    } else if d == 4 {
        '4'
    } else if d == 5 {
        '5'
    } else if d == 6 {
        '6'
    } else if d == 7 {
        '7'
    } else if d == 8 {
        '8'
    } else {
        '9'
    }
}

/// The decimal spelling of `n`, most significant digit first, no sign and
/// no leading zero.
pub open spec fn dec_str(n: nat) -> Seq<char>
    decreases n,
{
    if n < 10 {
        seq![digit_char(n as int)]
    } else {
        dec_str(n / 10).push(digit_char((n % 10) as int))
    }
}

/// The name minted for counter value `n` under `tag`.
pub open spec fn label_name(tag: Seq<char>, n: u64) -> Seq<char> {
    "L_"@ + tag + dec_str(n as nat)
}

/// The label counter after one mint.
pub open spec fn bump(c: u64) -> u64 {
    vstd::wrapping::u64_specs::wrapping_add(c, 1)
}

/// A decimal spelling is never empty.
proof fn lemma_dec_str_len(n: nat)
    ensures
        dec_str(n).len() >= 1,
    decreases n,
{
    if n >= 10 {
        lemma_dec_str_len(n / 10);
    }
}

/// Decimal spelling is injective: distinct numbers spell differently.
proof fn lemma_dec_str_injective(a: nat, b: nat)
    requires
        dec_str(a) == dec_str(b),
    ensures
        a == b,
    decreases a,
{
    lemma_dec_str_len(a / 10);
    lemma_dec_str_len(b / 10);
    if a < 10 && b < 10 {
        assert(dec_str(a)[0] == digit_char(a as int));
        assert(dec_str(b)[0] == digit_char(b as int));
    } else if a < 10 {
        assert(dec_str(a).len() == 1);
        assert(dec_str(b) == dec_str(b / 10).push(digit_char((b % 10) as int)));
        assert(dec_str(b).len() >= 2);
    } else if b < 10 {
        assert(dec_str(b).len() == 1);
        assert(dec_str(a) == dec_str(a / 10).push(digit_char((a % 10) as int)));
        assert(dec_str(a).len() >= 2);
    } else {
        assert(dec_str(a).last() == digit_char((a % 10) as int));
        assert(dec_str(b).last() == digit_char((b % 10) as int));
        assert(dec_str(a).drop_last() =~= dec_str(a / 10));
        assert(dec_str(b).drop_last() =~= dec_str(b / 10));
        lemma_dec_str_injective(a / 10, b / 10);
    }
}

/// Labels are fresh: under one tag, two mints at different counter
/// values never spell the same name, so a label minted once per
/// control-flow construct is never reused.
pub proof fn lemma_label_names_fresh(tag: Seq<char>, a: u64, b: u64)
    requires
        a != b,
    ensures
        label_name(tag, a) != label_name(tag, b),
{
    if label_name(tag, a) == label_name(tag, b) {
        let prefix = "L_"@ + tag;
        assert(dec_str(a as nat) =~= label_name(tag, a).subrange(
            prefix.len() as int,
            label_name(tag, a).len() as int,
        ));
        assert(dec_str(b as nat) =~= label_name(tag, b).subrange(
            prefix.len() as int,
            label_name(tag, b).len() as int,
        ));
        lemma_dec_str_injective(a as nat, b as nat);
    }
}

/// One decimal digit as text.
fn digit_str(d: u64) -> (r: &'static str)
    requires
        d < 10,
    ensures
        r@ == seq![digit_char(d as int)],
{
    match d {
        0 => {
            proof {
                reveal_strlit("0");
            }
            "0"
        },
        1 => {
            proof {
                reveal_strlit("1");
            }
            "1"
        },
        2 => {
            proof {
                reveal_strlit("2");
            }
            "2"
        },
        3 => {
            proof {
                reveal_strlit("3");
            }
            "3"
        },
        4 => {
            proof {
                reveal_strlit("4");
            }
            "4"
        },
        5 => {
            proof {
                reveal_strlit("5");
            }
            "5"
        },
        6 => {
            proof {
                reveal_strlit("6");
            }
            "6"
        },
        7 => {
            proof {
                reveal_strlit("7");
            }
            "7"
        },
        8 => {
            proof {
                reveal_strlit("8");
            }
            "8"
        },
        9 => {
            proof {
                reveal_strlit("9");
            }
            "9"
        },
        _ => vstd::pervasive::unreached(),
    }
}

/// The decimal spelling of `n`.
fn u64_to_dec(n: u64) -> (r: String)
    ensures
        r@ == dec_str(n as nat),
    decreases n,
{
    if n < 10 {
        let r = String::from_str(digit_str(n));
        proof {
            assert(r@ =~= dec_str(n as nat));
        }
        r
    } else {
        let mut s = u64_to_dec(n / 10);
        s.append(digit_str(n % 10));
        proof {
            assert(s@ =~= dec_str(n as nat));
        }
        s
    }
}

/// The opcode a binary operator maps onto, one-to-one.
pub open spec fn binop_instr(op: BinOp) -> InstrView {
    match op {
        BinOp::Add => InstrView::Add,
        BinOp::Sub => InstrView::Sub,
        BinOp::Mul => InstrView::Mul,
        BinOp::Mod => InstrView::Mod,
        BinOp::Eq => InstrView::Eq,
        BinOp::NEq => InstrView::NEq,
        BinOp::Lt => InstrView::Lt,
        BinOp::Gt => InstrView::Gt,
        BinOp::Lte => InstrView::Lte,
        BinOp::Gte => InstrView::Gte,
    }
}

/// The opcode a logical connective maps onto.
pub open spec fn logop_instr(op: LogOp) -> InstrView {
    match op {
        LogOp::And => InstrView::And,
        LogOp::Or => InstrView::Or,
    }
}

/// The code of an expression: operands left to right, operator last, so
/// evaluation leaves exactly one value on the operand stack — except for
/// an assignment, which consumes the value it stores.
pub open spec fn compile_expr(e: Expr) -> Seq<InstrView>
    decreases e,
{
    match e {
        Expr::Number(n) => seq![InstrView::Push(n)],
        Expr::Boolean(b) => seq![InstrView::Push(if b { 1u64 } else { 0u64 })],
        Expr::Variable(name) => seq![InstrView::Var(name@)],
        Expr::Assign { name, value } => compile_expr(*value).push(InstrView::Assign(name@)),
        Expr::Binary { left, op, right } => compile_expr(*left) + compile_expr(*right) + seq![
            binop_instr(op),
        ],
        Expr::Logical { left, op, right } => compile_expr(*left) + compile_expr(*right) + seq![
            logop_instr(op),
        ],
        Expr::Grouping(inner) => compile_expr(*inner),
    }
}

/// The code of a statement, starting from label counter `c`, and the
/// counter left behind. An `if` mints exactly three fresh labels, a
/// `while` exactly two; a block emits its statements in sequence with no
/// extra scoping instructions.
pub open spec fn compile_stmt(s: Stmt, c: u64) -> (Seq<InstrView>, u64)
    decreases s,
{
    match s {
        Stmt::Expression(e) => (compile_expr(e), c),
        Stmt::Print(e) => (compile_expr(e).push(InstrView::Print), c),
        Stmt::If { condition, then_branch, else_branch } => {
            let else_name = label_name("else_label"@, bump(c));
            let end_name = label_name("end_of_if_label"@, bump(bump(c)));
            let (then_code, c1) = compile_stmt(*then_branch, bump(bump(bump(c))));
            let (else_code, c2) = match else_branch {
                Some(b) => compile_stmt(*b, c1),
                None => (Seq::<InstrView>::empty(), c1),
            };
            (
                compile_expr(condition) + seq![InstrView::Jz { label: else_name, offset: 0 }]
                    + then_code + seq![
                    InstrView::Jmp { label: end_name, offset: 0 },
                    InstrView::Label(else_name),
                ] + else_code + seq![InstrView::Label(end_name)],
                c2,
            )
        },
        Stmt::While { condition, body } => {
            let start_name = label_name("start_label"@, c);
            let end_name = label_name("end_label"@, bump(c));
            let (body_code, c1) = compile_stmt(*body, bump(bump(c)));
            (
                seq![InstrView::Label(start_name)] + compile_expr(condition) + seq![
                    InstrView::Jz { label: end_name, offset: 0 },
                ] + body_code + seq![
                    InstrView::Jmp { label: start_name, offset: 0 },
                    InstrView::Label(end_name),
                ],
                c1,
            )
        },
        Stmt::Block(stmts) => compile_stmts(stmts@, c),
    }
}

/// The code of a statement sequence, threading the label counter through.
pub open spec fn compile_stmts(ss: Seq<Stmt>, c: u64) -> (Seq<InstrView>, u64)
    decreases ss,
{
    if ss.len() == 0 {
        (Seq::<InstrView>::empty(), c)
    } else {
        let (first, c1) = compile_stmt(ss[0], c);
        let (rest, c2) = compile_stmts(ss.drop_first(), c1);
        (first + rest, c2)
    }
}

/// Walks a statement tree and emits the flat instruction sequence with
/// symbolic jump targets, exactly as `compile_stmts` gives it. The label
/// counter is state of the instance, not of the process, so generation is
/// reentrant: every label a construct mints is fresh for this instance.
pub struct BytecodeGenerator {
    instructions: Vec<ByteCode>,
    label_counter: u64,
}

impl BytecodeGenerator {
    /// The images of the instructions emitted so far.
    pub closed spec fn emitted(&self) -> Seq<InstrView> {
        view_program(self.instructions@)
    }

    /// The label counter: how many labels have been minted.
    pub closed spec fn counter(&self) -> u64 {
        self.label_counter
    }

    /// A fresh generator: nothing emitted, no label minted.
    pub fn new() -> (r: Self)
        ensures
            r.emitted() == Seq::<InstrView>::empty(),
            r.counter() == 0,
    {
        let r = BytecodeGenerator { instructions: Vec::new(), label_counter: 0 };
        proof {
            assert(r.emitted() =~= Seq::<InstrView>::empty());
        }
        r
    }

    /// Mints a fresh label: the tag, prefixed, with the counter value
    /// appended, and the counter moved on.
    fn generate_label(&mut self, msg: &str) -> (r: String)
        ensures
            r@ == label_name(msg@, old(self).label_counter),
            final(self).label_counter == bump(old(self).label_counter),
            final(self).instructions == old(self).instructions,
    {
        let mut s = String::from_str("L_");
        s.append(msg);
        let digits = u64_to_dec(self.label_counter);
        s.append(digits.as_str());
        self.label_counter = self.label_counter.wrapping_add(1);
        s
    }

    /// Emits the code of one expression.
    fn emit_expr(&mut self, e: &Expr)
        ensures
            view_program(final(self).instructions@) == view_program(old(self).instructions@)
                + compile_expr(*e),
            final(self).label_counter == old(self).label_counter,
        decreases *e,
    {
        let ghost base = self.instructions@;
        match e {
            Expr::Number(n) => {
                let instr = ByteCode::Push(*n);
                let ghost gi = instr;
                self.instructions.push(instr);
                proof {
                    lemma_view_push(base, gi);
                }
            },
            Expr::Boolean(b) => {
                let instr = ByteCode::Push(if *b { 1 } else { 0 });
                let ghost gi = instr;
                self.instructions.push(instr);
                proof {
                    lemma_view_push(base, gi);
                }
            },
            Expr::Variable(name) => {
                let instr = ByteCode::Var(name.clone());
                let ghost gi = instr;
                self.instructions.push(instr);
                proof {
                    lemma_view_push(base, gi);
                }
            },
            Expr::Assign { name, value } => {
                self.emit_expr(&**value);
                let ghost mid = self.instructions@;
                let instr = ByteCode::Assign(name.clone());
                let ghost gi = instr;
                self.instructions.push(instr);
                proof {
                    lemma_view_push(mid, gi);
                    assert(view_program(base) + compile_expr(**value) + seq![
                        InstrView::Assign(name@),
                    ] =~= view_program(base) + compile_expr(*e));
                }
            },
            Expr::Binary { left, op, right } => {
                self.emit_expr(&**left);
                self.emit_expr(&**right);
                let ghost mid = self.instructions@;
                let instr = binop_bytecode(op);
                let ghost gi = instr;
                self.instructions.push(instr);
                proof {
                    lemma_view_push(mid, gi);
                    assert(view_program(base) + compile_expr(**left) + compile_expr(**right)
                        + seq![binop_instr(*op)] =~= view_program(base) + compile_expr(*e));
                }
            },
            Expr::Logical { left, op, right } => {
                self.emit_expr(&**left);
                self.emit_expr(&**right);
                let ghost mid = self.instructions@;
                let instr = logop_bytecode(op);
                let ghost gi = instr;
                self.instructions.push(instr);
                proof {
                    lemma_view_push(mid, gi);
                    assert(view_program(base) + compile_expr(**left) + compile_expr(**right)
                        + seq![logop_instr(*op)] =~= view_program(base) + compile_expr(*e));
                }
            },
            Expr::Grouping(inner) => {
                self.emit_expr(&**inner);
            },
        }
    }

    /// Emits the code of one statement.
    fn emit_stmt(&mut self, s: &Stmt)
        ensures
            view_program(final(self).instructions@) == view_program(old(self).instructions@)
                + compile_stmt(*s, old(self).label_counter).0,
            final(self).label_counter == compile_stmt(*s, old(self).label_counter).1,
        decreases *s,
    {
        let ghost base = self.instructions@;
        let ghost c0 = self.label_counter;
        match s {
            Stmt::Expression(e) => {
                self.emit_expr(e);
            },
            Stmt::Print(e) => {
                self.emit_expr(e);
                let ghost mid = self.instructions@;
                self.instructions.push(ByteCode::Print);
                proof {
                    lemma_view_push(mid, ByteCode::Print);
                    assert(view_program(base) + compile_expr(*e) + seq![InstrView::Print]
                        =~= view_program(base) + compile_stmt(*s, c0).0);
                }
            },
            Stmt::If { condition, then_branch, else_branch } => {
                self.emit_expr(condition);
                // an `if` mints exactly three fresh labels; the first names
                // the construct itself and no jump ever targets it
                let _ = self.generate_label("if_label");
                let else_label = self.generate_label("else_label");
                let end_label = self.generate_label("end_of_if_label");
                let ghost m1 = self.instructions@;
                let instr = ByteCode::Jz { label: else_label.clone(), offset: 0 };
                let ghost g1 = instr;
                self.instructions.push(instr);
                proof {
                    lemma_view_push(m1, g1);
                }
                self.emit_stmt(&**then_branch);
                let ghost m2 = self.instructions@;
                let instr = ByteCode::Jmp { label: end_label.clone(), offset: 0 };
                let ghost g2 = instr;
                self.instructions.push(instr);
                proof {
                    lemma_view_push(m2, g2);
                }
                let ghost m3 = self.instructions@;
                let ghost else_ghost = else_label@;
                let instr = ByteCode::Label(else_label);
                let ghost g3 = instr;
                self.instructions.push(instr);
                proof {
                    lemma_view_push(m3, g3);
                }
                match else_branch {
                    Some(b) => {
                        self.emit_stmt(&**b);
                    },
                    None => {},
                }
                let ghost m4 = self.instructions@;
                let instr = ByteCode::Label(end_label);
                let ghost g4 = instr;
                self.instructions.push(instr);
                proof {
                    lemma_view_push(m4, g4);
                    assert(view_program(self.instructions@) =~= view_program(base)
                        + compile_stmt(*s, c0).0);
                }
            },
            Stmt::While { condition, body } => {
                let start_label = self.generate_label("start_label");
                let end_label = self.generate_label("end_label");
                let ghost m1 = self.instructions@;
                let instr = ByteCode::Label(start_label.clone());
                let ghost g1 = instr;
                self.instructions.push(instr);
                proof {
                    lemma_view_push(m1, g1);
                }
                self.emit_expr(condition);
                let ghost m2 = self.instructions@;
                let instr = ByteCode::Jz { label: end_label.clone(), offset: 0 };
                let ghost g2 = instr;
                self.instructions.push(instr);
                proof {
                    lemma_view_push(m2, g2);
                }
                self.emit_stmt(&**body);
                let ghost m3 = self.instructions@;
                let instr = ByteCode::Jmp { label: start_label, offset: 0 };
                let ghost g3 = instr;
                self.instructions.push(instr);
                proof {
                    lemma_view_push(m3, g3);
                }
                let ghost m4 = self.instructions@;
                let instr = ByteCode::Label(end_label);
                let ghost g4 = instr;
                self.instructions.push(instr);
                proof {
                    lemma_view_push(m4, g4);
                    assert(view_program(self.instructions@) =~= view_program(base)
                        + compile_stmt(*s, c0).0);
                }
            },
            Stmt::Block(stmts) => {
                proof {
                    assert(stmts@.skip(0) =~= stmts@);
                }
                for i in 0..stmts.len()
                    invariant
                        *s == Stmt::Block(*stmts),
                        base == old(self).instructions@,
                        c0 == old(self).label_counter,
                        view_program(self.instructions@) + compile_stmts(
                            stmts@.skip(i as int),
                            self.label_counter,
                        ).0 == view_program(base) + compile_stmts(stmts@, c0).0,
                        compile_stmts(stmts@.skip(i as int), self.label_counter).1
                            == compile_stmts(stmts@, c0).1,
                {
                    proof {
                        assert(decreases_to!(*s => s->Block_0));
                        assert(s->Block_0 == *stmts);
                        assert(decreases_to!(*stmts => stmts@));
                        assert(decreases_to!(stmts@ => stmts@[i as int]));
                        assert(decreases_to!(*s => stmts@[i as int]));
                        assert(stmts@.skip(i as int)[0] == stmts@[i as int]);
                        assert(stmts@.skip(i as int).drop_first() =~= stmts@.skip(i + 1));
                    }
                    let ghost before = self.instructions@;
                    let ghost c_here = self.label_counter;
                    self.emit_stmt(&stmts[i]);
                    proof {
                        assert(view_program(self.instructions@) + compile_stmts(
                            stmts@.skip(i + 1),
                            self.label_counter,
                        ).0 =~= view_program(before) + compile_stmts(
                            stmts@.skip(i as int),
                            c_here,
                        ).0);
                    }
                }
                proof {
                    assert(stmts@.skip(stmts@.len() as int) =~= Seq::<Stmt>::empty());
                    assert(view_program(self.instructions@) + compile_stmts(
                        Seq::<Stmt>::empty(),
                        self.label_counter,
                    ).0 =~= view_program(self.instructions@));
                }
            },
        }
    }

    /// Walks the statement tree and appends its code; the result is all
    /// the code this instance has emitted so far.
    pub fn generate(&mut self, statements: &Vec<Stmt>) -> (r: Vec<ByteCode>)
        ensures
            final(self).emitted() == old(self).emitted() + compile_stmts(
                statements@,
                old(self).counter(),
            ).0,
            final(self).counter() == compile_stmts(statements@, old(self).counter()).1,
            view_program(r@) == final(self).emitted(),
    {
        let ghost base = self.instructions@;
        let ghost c0 = self.label_counter;
        proof {
            assert(statements@.skip(0) =~= statements@);
        }
        for i in 0..statements.len()
            invariant
                base == old(self).instructions@,
                c0 == old(self).label_counter,
                view_program(self.instructions@) + compile_stmts(
                    statements@.skip(i as int),
                    self.label_counter,
                ).0 == view_program(base) + compile_stmts(statements@, c0).0,
                compile_stmts(statements@.skip(i as int), self.label_counter).1 == compile_stmts(
                    statements@,
                    c0,
                ).1,
        {
            proof {
                assert(statements@.skip(i as int)[0] == statements@[i as int]);
                assert(statements@.skip(i as int).drop_first() =~= statements@.skip(i + 1));
            }
            let ghost before = self.instructions@;
            let ghost c_here = self.label_counter;
            self.emit_stmt(&statements[i]);
            proof {
                assert(view_program(self.instructions@) + compile_stmts(
                    statements@.skip(i + 1),
                    self.label_counter,
                ).0 =~= view_program(before) + compile_stmts(statements@.skip(i as int), c_here).0);
            }
        }
        proof {
            assert(statements@.skip(statements@.len() as int) =~= Seq::<Stmt>::empty());
            assert(view_program(self.instructions@) + compile_stmts(
                Seq::<Stmt>::empty(),
                self.label_counter,
            ).0 =~= view_program(self.instructions@));
        }
        crate::bytecode::copy_program(&self.instructions)
    }
}

/// The opcode a binary operator maps onto.
fn binop_bytecode(op: &BinOp) -> (r: ByteCode)
    ensures
        r@ == binop_instr(*op),
{
    match op {
        BinOp::Add => ByteCode::Add,
        BinOp::Sub => ByteCode::Sub,
        BinOp::Mul => ByteCode::Mul,
        BinOp::Mod => ByteCode::Mod,
        BinOp::Eq => ByteCode::Eq,
        BinOp::NEq => ByteCode::NEq,
        BinOp::Lt => ByteCode::Lt,
        BinOp::Gt => ByteCode::Gt,
        BinOp::Lte => ByteCode::Lte,
        BinOp::Gte => ByteCode::Gte,
    }
}

/// The opcode a logical connective maps onto.
fn logop_bytecode(op: &LogOp) -> (r: ByteCode)
    ensures
        r@ == logop_instr(*op),
{
    match op {
        LogOp::And => ByteCode::And,
        LogOp::Or => ByteCode::Or,
    }
}

} // verus!
