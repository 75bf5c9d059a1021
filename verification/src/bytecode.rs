use vstd::prelude::*;

verus! {

/// One unit of the bytecode: a closed tagged union.
///
/// `Jz`, `JNz` and `Jmp` carry a symbolic `label` until resolution and a
/// signed relative `offset` afterwards; the offset is added to the program
/// counter on a taken jump, before the implicit advance by one.
/// `Label` is a marker with no runtime effect. The last three variants are
/// superinstructions minted by the fusion pass, each equivalent to the
/// adjacent pair it replaces.
#[derive(PartialEq, Debug)]
pub enum ByteCode {
    Push(u64),
    Pop,
    Add,
    Sub,
    Mul,
    Mod,
    Var(String),
    Eq,
    NEq,
    Lt,
    Gt,
    Lte,
    Gte,
    And,
    Or,
    Jz { label: String, offset: i64 },
    JNz { label: String, offset: i64 },
    Jmp { label: String, offset: i64 },
    Label(String),
    Print,
    Assign(String),
    PushAdd(u64),
    AssignPushAdd { name: String, value: u64 },
    PushAssign { name: String, value: u64 },
}

impl ByteCode {
    /// An exact copy, with the equality known to the verifier — the
    /// derived `Clone` gives it nothing to go on.
    pub fn dup(&self) -> (r: ByteCode)
        ensures
            r == *self,
    {
        match self {
            ByteCode::Push(v) => ByteCode::Push(*v),
            ByteCode::Pop => ByteCode::Pop,
            ByteCode::Add => ByteCode::Add,
            ByteCode::Sub => ByteCode::Sub,
            ByteCode::Mul => ByteCode::Mul,
            ByteCode::Mod => ByteCode::Mod,
            ByteCode::Var(name) => ByteCode::Var(name.clone()),
            ByteCode::Eq => ByteCode::Eq,
            ByteCode::NEq => ByteCode::NEq,
            ByteCode::Lt => ByteCode::Lt,
            ByteCode::Gt => ByteCode::Gt,
            ByteCode::Lte => ByteCode::Lte,
            ByteCode::Gte => ByteCode::Gte,
            ByteCode::And => ByteCode::And,
            ByteCode::Or => ByteCode::Or,
            ByteCode::Jz { label, offset } => ByteCode::Jz { label: label.clone(), offset: *offset },
            ByteCode::JNz { label, offset } => ByteCode::JNz { label: label.clone(), offset: *offset },
            ByteCode::Jmp { label, offset } => ByteCode::Jmp { label: label.clone(), offset: *offset },
            ByteCode::Label(name) => ByteCode::Label(name.clone()),
            ByteCode::Print => ByteCode::Print,
            ByteCode::Assign(name) => ByteCode::Assign(name.clone()),
            ByteCode::PushAdd(v) => ByteCode::PushAdd(*v),
            ByteCode::AssignPushAdd { name, value } => ByteCode::AssignPushAdd {
                name: name.clone(),
                value: *value,
            },
            ByteCode::PushAssign { name, value } => ByteCode::PushAssign {
                name: name.clone(),
                value: *value,
            },
        }
    }
}

/// The ghost image of an instruction: the same tagged union with every
/// name held as the character sequence it spells. Two instructions with
/// one image are interchangeable everywhere: the execution semantics and
/// the resolver read names only through their views.
pub ghost enum InstrView {
    Push(u64),
    Pop,
    Add,
    Sub,
    Mul,
    Mod,
    Var(Seq<char>),
    Eq,
    NEq,
    Lt,
    Gt,
    Lte,
    Gte,
    And,
    Or,
    Jz { label: Seq<char>, offset: i64 },
    JNz { label: Seq<char>, offset: i64 },
    Jmp { label: Seq<char>, offset: i64 },
    Label(Seq<char>),
    Print,
    Assign(Seq<char>),
    PushAdd(u64),
    AssignPushAdd { name: Seq<char>, value: u64 },
    PushAssign { name: Seq<char>, value: u64 },
}

impl View for ByteCode {
    type V = InstrView;

    open spec fn view(&self) -> InstrView {
        match self {
            ByteCode::Push(v) => InstrView::Push(*v),
            ByteCode::Pop => InstrView::Pop,
            ByteCode::Add => InstrView::Add,
            ByteCode::Sub => InstrView::Sub,
            ByteCode::Mul => InstrView::Mul,
            ByteCode::Mod => InstrView::Mod,
            ByteCode::Var(name) => InstrView::Var(name@),
            ByteCode::Eq => InstrView::Eq,
            ByteCode::NEq => InstrView::NEq,
            ByteCode::Lt => InstrView::Lt,
            ByteCode::Gt => InstrView::Gt,
            ByteCode::Lte => InstrView::Lte,
            ByteCode::Gte => InstrView::Gte,
            ByteCode::And => InstrView::And,
            ByteCode::Or => InstrView::Or,
            ByteCode::Jz { label, offset } => InstrView::Jz { label: label@, offset: *offset },
            ByteCode::JNz { label, offset } => InstrView::JNz { label: label@, offset: *offset },
            ByteCode::Jmp { label, offset } => InstrView::Jmp { label: label@, offset: *offset },
            ByteCode::Label(name) => InstrView::Label(name@),
            ByteCode::Print => InstrView::Print,
            ByteCode::Assign(name) => InstrView::Assign(name@),
            ByteCode::PushAdd(v) => InstrView::PushAdd(*v),
            ByteCode::AssignPushAdd { name, value } => InstrView::AssignPushAdd {
                name: name@,
                value: *value,
            },
            ByteCode::PushAssign { name, value } => InstrView::PushAssign {
                name: name@,
                value: *value,
            },
        }
    }
}

/// A whole program as its ghost image, instruction for instruction.
pub open spec fn view_program(p: Seq<ByteCode>) -> Seq<InstrView> {
    p.map_values(|i: ByteCode| i@)
}

/// Appending one instruction appends its image.
pub proof fn lemma_view_push(s: Seq<ByteCode>, x: ByteCode)
    ensures
        view_program(s.push(x)) == view_program(s).push(x@),
        view_program(s.push(x)) == view_program(s) + seq![x@],
{
    assert(view_program(s.push(x)) =~= view_program(s).push(x@));
    assert(view_program(s.push(x)) =~= view_program(s) + seq![x@]);
}

/// Copies a whole program, element for element.
pub fn copy_program(program: &Vec<ByteCode>) -> (r: Vec<ByteCode>)
    ensures
        r@ == program@,
{
    let mut r: Vec<ByteCode> = Vec::new();
    for i in 0..program.len()
        invariant
            r@ == program@.subrange(0, i as int),
    {
        r.push(program[i].dup());
        proof {
            assert(r@ =~= program@.subrange(0, i + 1 as int));
        }
    }
    proof {
        assert(r@ =~= program@);
    }
    r
}

} // verus!
