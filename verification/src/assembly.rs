//! Abstract x86-64 assembly: instruction selection, pseudo-register
//! replacement, and legalization.
//!
//! Selection (`sp_select`) maps each three-address instruction to a
//! short sequence over operands that are immediates, registers, or
//! symbolic pseudos. Replacement (`sp_replace`) rewrites every pseudo
//! to a stack slot, assigning 4 bytes per distinct name in first-
//! occurrence order, and yields the frame size. Legalization
//! (`sp_fixup`) prepends the stack allocation and rewrites the
//! instruction forms x86 forbids: a move or `add`/`sub` between two
//! memory operands, a multiply into memory, and a divide by an
//! immediate. The executable passes are proven to produce exactly the
//! specification results.
use crate::tacky;
use vstd::prelude::*;
use vstd::string::*;

verus! {

#[derive(Debug, PartialEq, Eq)]
pub struct Program {
    pub function: Function,
}

#[derive(Debug, PartialEq, Eq)]
pub struct Function {
    pub name: String,
    pub instructions: Vec<Instruction>,
}

#[allow(inconsistent_fields)]
#[derive(Debug, PartialEq, Eq)]
pub enum Instruction {
    Mov { src: Operand, dst: Operand },
    Unary { operator: UnaryOperator, operand: Operand },
    Binary { operator: BinaryOperator, src: Operand, dst: Operand },
    Idiv(Operand),
    Cdq,
    AllocateStack(u32),
    Ret,
}

#[derive(Clone, Copy, Debug, PartialEq, Eq)]
pub enum UnaryOperator {
    Neg,
    Not,
}

#[derive(Clone, Copy, Debug, PartialEq, Eq)]
pub enum BinaryOperator {
    Add,
    Sub,
    Mult,
}

#[derive(Debug, PartialEq, Eq)]
pub enum Operand {
    Imm(i32),
    Register(Register),
    Pseudo(String),
    Stack(u32),
}

#[derive(Clone, Copy, Debug, PartialEq, Eq)]
pub enum Register {
    AX,
    DX,
    R10,
    R11,
}

impl Clone for Operand {
    fn clone(&self) -> (r: Operand)
        ensures
            r@ == self@,
    {
        match self {
            Operand::Imm(n) => Operand::Imm(*n),
            Operand::Register(r) => Operand::Register(*r),
            Operand::Pseudo(s) => Operand::Pseudo(s.clone()),
            Operand::Stack(n) => Operand::Stack(*n),
        }
    }
}

/// The mathematical model of an `Operand`.
pub enum OperandView {
    Imm(i32),
    Register(Register),
    Pseudo(Seq<char>),
    Stack(u32),
}

/// The mathematical model of an `Instruction`.
#[allow(inconsistent_fields)]
pub enum InstructionView {
    Mov { src: OperandView, dst: OperandView },
    Unary { operator: UnaryOperator, operand: OperandView },
    Binary { operator: BinaryOperator, src: OperandView, dst: OperandView },
    Idiv(OperandView),
    Cdq,
    AllocateStack(u32),
    Ret,
}

/// The mathematical model of a `Function`.
pub struct FunctionView {
    pub name: Seq<char>,
    pub instructions: Seq<InstructionView>,
}

/// The mathematical model of a `Program`.
pub struct ProgramView {
    pub function: FunctionView,
}

impl View for Operand {
    type V = OperandView;

    open spec fn view(&self) -> OperandView {
        match self {
            Operand::Imm(n) => OperandView::Imm(*n),
            Operand::Register(r) => OperandView::Register(*r),
            Operand::Pseudo(s) => OperandView::Pseudo(s@),
            Operand::Stack(n) => OperandView::Stack(*n),
        }
    }
}

impl View for Instruction {
    type V = InstructionView;

    open spec fn view(&self) -> InstructionView {
        match self {
            Instruction::Mov { src, dst } => InstructionView::Mov { src: src@, dst: dst@ },
            Instruction::Unary { operator, operand } => InstructionView::Unary {
                operator: *operator,
                operand: operand@,
            },
            Instruction::Binary { operator, src, dst } => InstructionView::Binary {
                operator: *operator,
                src: src@,
                dst: dst@,
            },
            Instruction::Idiv(op) => InstructionView::Idiv(op@),
            Instruction::Cdq => InstructionView::Cdq,
            Instruction::AllocateStack(n) => InstructionView::AllocateStack(*n),
            Instruction::Ret => InstructionView::Ret,
        }
    }
}

impl View for Function {
    type V = FunctionView;

    open spec fn view(&self) -> FunctionView {
        FunctionView { name: self.name@, instructions: instructions_view(self.instructions@) }
    }
}

impl View for Program {
    type V = ProgramView;

    open spec fn view(&self) -> ProgramView {
        ProgramView { function: self.function@ }
    }
}

/// The view of an executable instruction vector.
pub open spec fn instructions_view(v: Seq<Instruction>) -> Seq<InstructionView> {
    v.map_values(|i: Instruction| i@)
}

/// The assembly unary operator for an intermediate-representation one:
/// complement becomes `notl`, negation becomes `negl`.
pub open spec fn sp_unary_op(op: tacky::UnaryOperator) -> UnaryOperator {
    match op {
        tacky::UnaryOperator::Complement => UnaryOperator::Not,
        tacky::UnaryOperator::Negate => UnaryOperator::Neg,
    }
}

/// The operand standing for a three-address value: constants become
/// immediates, variables become pseudos.
pub open spec fn sp_operand(v: tacky::ValueView) -> OperandView {
    match v {
        tacky::ValueView::Constant(n) => OperandView::Imm(n),
        tacky::ValueView::Var(s) => OperandView::Pseudo(s),
    }
}

/// The instruction sequence selected for one three-address instruction.
pub open spec fn sp_select_instr(i: tacky::InstructionView) -> Seq<InstructionView> {
    match i {
        tacky::InstructionView::Return(v) => seq![
            InstructionView::Mov {
                src: sp_operand(v),
                dst: OperandView::Register(Register::AX),
            },
            InstructionView::Ret,
        ],
        tacky::InstructionView::Unary { operator, src, dst } => seq![
            InstructionView::Mov { src: sp_operand(src), dst: sp_operand(dst) },
            InstructionView::Unary { operator: sp_unary_op(operator), operand: sp_operand(dst) },
        ],
        tacky::InstructionView::Binary { operator, left, right, dst } => match operator {
            tacky::BinaryOperator::Divide => seq![
                InstructionView::Mov {
                    src: sp_operand(left),
                    dst: OperandView::Register(Register::AX),
                },
                InstructionView::Cdq,
                InstructionView::Idiv(sp_operand(right)),
                InstructionView::Mov {
                    src: OperandView::Register(Register::AX),
                    dst: sp_operand(dst),
                },
            ],
            tacky::BinaryOperator::Remainder => seq![
                InstructionView::Mov {
                    src: sp_operand(left),
                    dst: OperandView::Register(Register::AX),
                },
                InstructionView::Cdq,
                InstructionView::Idiv(sp_operand(right)),
                InstructionView::Mov {
                    src: OperandView::Register(Register::DX),
                    dst: sp_operand(dst),
                },
            ],
            tacky::BinaryOperator::Add => sp_select_simple_binary(BinaryOperator::Add, left, right, dst),
            tacky::BinaryOperator::Subtract => sp_select_simple_binary(
                BinaryOperator::Sub,
                left,
                right,
                dst,
            ),
            tacky::BinaryOperator::Multiply => sp_select_simple_binary(
                BinaryOperator::Mult,
                left,
                right,
                dst,
            ),
        },
    }
}

/// Selection for `add`, `sub` and `imul`: move the left operand into
/// the destination, then operate with the right operand on it.
pub open spec fn sp_select_simple_binary(
    op: BinaryOperator,
    left: tacky::ValueView,
    right: tacky::ValueView,
    dst: tacky::ValueView,
) -> Seq<InstructionView> {
    seq![
        InstructionView::Mov { src: sp_operand(left), dst: sp_operand(dst) },
        InstructionView::Binary { operator: op, src: sp_operand(right), dst: sp_operand(dst) },
    ]
}

/// Instruction selection over a whole body.
pub open spec fn sp_select(is: Seq<tacky::InstructionView>) -> Seq<InstructionView>
    decreases is.len(),
{
    if is.len() == 0 {
        Seq::empty()
    } else {
        sp_select_instr(is[0]) + sp_select(is.skip(1))
    }
}

/// Replacement of one operand: a pseudo seen before is rewritten to
/// its slot; a new pseudo is assigned the next 4-byte slot; everything
/// else passes through. The state is the slot map and the number of
/// slots assigned.
pub open spec fn sp_offset(op: OperandView, m: Map<Seq<char>, u32>, count: nat) -> (
    OperandView,
    Map<Seq<char>, u32>,
    nat,
) {
    match op {
        OperandView::Pseudo(name) => {
            if m.dom().contains(name) {
                (OperandView::Stack(m[name]), m, count)
            } else {
                let off = (((count + 1) * 4) as u32);
                (OperandView::Stack(off), m.insert(name, off), count + 1)
            }
        },
        _ => (op, m, count),
    }
}

/// Replacement of the operands of one instruction, source first.
pub open spec fn sp_replace_instr(
    i: InstructionView,
    m: Map<Seq<char>, u32>,
    count: nat,
) -> (InstructionView, Map<Seq<char>, u32>, nat) {
    match i {
        InstructionView::Mov { src, dst } => {
            let (s2, m1, c1) = sp_offset(src, m, count);
            let (d2, m2, c2) = sp_offset(dst, m1, c1);
            (InstructionView::Mov { src: s2, dst: d2 }, m2, c2)
        },
        InstructionView::Unary { operator, operand } => {
            let (o2, m1, c1) = sp_offset(operand, m, count);
            (InstructionView::Unary { operator, operand: o2 }, m1, c1)
        },
        InstructionView::Binary { operator, src, dst } => {
            let (s2, m1, c1) = sp_offset(src, m, count);
            let (d2, m2, c2) = sp_offset(dst, m1, c1);
            (InstructionView::Binary { operator, src: s2, dst: d2 }, m2, c2)
        },
        InstructionView::Idiv(op) => {
            let (o2, m1, c1) = sp_offset(op, m, count);
            (InstructionView::Idiv(o2), m1, c1)
        },
        _ => (i, m, count),
    }
}

/// Replacement over a whole body, threading the slot map.
pub open spec fn sp_replace(
    is: Seq<InstructionView>,
    m: Map<Seq<char>, u32>,
    count: nat,
) -> (Seq<InstructionView>, Map<Seq<char>, u32>, nat)
    decreases is.len(),
{
    if is.len() == 0 {
        (Seq::empty(), m, count)
    } else {
        let (i2, m1, c1) = sp_replace_instr(is[0], m, count);
        let (rest, m2, c2) = sp_replace(is.skip(1), m1, c1);
        (seq![i2] + rest, m2, c2)
    }
}

/// The legalized form of one instruction: rewrites the operand
/// combinations x86 forbids, using `r10d` as the generic scratch and
/// `r11d` for the multiply destination.
pub open spec fn sp_fix_instr(i: InstructionView) -> Seq<InstructionView> {
    match i {
        InstructionView::Mov { src, dst } => {
            if src is Stack && dst is Stack {
                seq![
                    InstructionView::Mov { src, dst: OperandView::Register(Register::R10) },
                    InstructionView::Mov { src: OperandView::Register(Register::R10), dst },
                ]
            } else {
                seq![i]
            }
        },
        InstructionView::Binary { operator, src, dst } => {
            match operator {
                BinaryOperator::Mult => {
                    if dst is Stack {
                        seq![
                            InstructionView::Mov {
                                src: dst,
                                dst: OperandView::Register(Register::R11),
                            },
                            InstructionView::Binary {
                                operator,
                                src,
                                dst: OperandView::Register(Register::R11),
                            },
                            InstructionView::Mov {
                                src: OperandView::Register(Register::R11),
                                dst,
                            },
                        ]
                    } else {
                        seq![i]
                    }
                },
                _ => {
                    if src is Stack && dst is Stack {
                        seq![
                            InstructionView::Mov {
                                src,
                                dst: OperandView::Register(Register::R10),
                            },
                            InstructionView::Binary {
                                operator,
                                src: OperandView::Register(Register::R10),
                                dst,
                            },
                        ]
                    } else {
                        seq![i]
                    }
                },
            }
        },
        InstructionView::Idiv(op) => {
            if op is Imm {
                seq![
                    InstructionView::Mov { src: op, dst: OperandView::Register(Register::R10) },
                    InstructionView::Idiv(OperandView::Register(Register::R10)),
                ]
            } else {
                seq![i]
            }
        },
        _ => seq![i],
    }
}

/// Legalization over a whole body.
pub open spec fn sp_fixup(is: Seq<InstructionView>) -> Seq<InstructionView>
    decreases is.len(),
{
    if is.len() == 0 {
        Seq::empty()
    } else {
        sp_fix_instr(is[0]) + sp_fixup(is.skip(1))
    }
}

/// The whole assembly stage: selection, pseudo replacement starting
/// from an empty map, then the stack allocation and legalization.
pub open spec fn sp_assembly(p: tacky::ProgramView) -> ProgramView {
    let selected = sp_select(p.function.body);
    let (replaced, m, count) = sp_replace(selected, Map::empty(), 0);
    let frame = ((4 * count) as u32);
    ProgramView {
        function: FunctionView {
            name: p.function.name,
            instructions: seq![InstructionView::AllocateStack(frame)] + sp_fixup(replaced),
        },
    }
}

/// Translates a three-address program to legal assembly.
pub fn assembly(program: tacky::Program) -> (r: Program)
    requires
        program.function.body@.len() <= 0x03ff_ffff,
    ensures
        r@ == sp_assembly(program@),
{
    let p = Program { function: function_definition(program.function) };
    let (p, frame) = replace_pseudo_registers(p);
    fixing_up(p, frame)
}

fn function_definition(function: tacky::Function) -> (r: Function)
    requires
        function.body@.len() <= 0x03ff_ffff,
    ensures
        r@.name == function@.name,
        r@.instructions == sp_select(function@.body),
        r@.instructions.len() <= 4 * function.body@.len(),
{
    Function { name: function.name, instructions: instructions(function.body) }
}

/// The operand for a three-address value.
fn operand_of(v: &tacky::Value) -> (r: Operand)
    ensures
        r@ == sp_operand(v@),
{
    match v {
        tacky::Value::Constant(n) => Operand::Imm(*n),
        tacky::Value::Var(s) => Operand::Pseudo(s.clone()),
    }
}

/// Instruction selection: each three-address instruction becomes a
/// short sequence of abstract assembly instructions.
fn instructions(is: Vec<tacky::Instruction>) -> (r: Vec<Instruction>)
    ensures
        instructions_view(r@) == sp_select(tacky::instructions_view(is@)),
        r@.len() <= 4 * is@.len(),
{
    let ghost all = tacky::instructions_view(is@);
    let mut out: Vec<Instruction> = Vec::new();
    let mut i: usize = 0;
    proof {
        assert(all.skip(0) =~= all);
        assert(instructions_view(out@) + sp_select(all) =~= sp_select(all));
    }
    while i < is.len()
        invariant
            i <= is.len(),
            all == tacky::instructions_view(is@),
            sp_select(all) == instructions_view(out@) + sp_select(all.skip(i as int)),
            out@.len() <= 4 * i,
        decreases is.len() - i,
    {
        let ghost pre = instructions_view(out@);
        let ghost rest = all.skip(i as int);
        proof {
            assert(rest[0] == all[i as int]);
            assert(rest.skip(1) =~= all.skip(i + 1));
        }
        match &is[i] {
            tacky::Instruction::Return(v) => {
                out.push(Instruction::Mov {
                    src: operand_of(v),
                    dst: Operand::Register(Register::AX),
                });
                out.push(Instruction::Ret);
            },
            tacky::Instruction::Unary { operator, src, dst } => {
                let op = match operator {
                    tacky::UnaryOperator::Complement => UnaryOperator::Not,
                    tacky::UnaryOperator::Negate => UnaryOperator::Neg,
                };
                out.push(Instruction::Mov { src: operand_of(src), dst: operand_of(dst) });
                out.push(Instruction::Unary { operator: op, operand: operand_of(dst) });
            },
            tacky::Instruction::Binary { operator, left, right, dst } => {
                match operator {
                    tacky::BinaryOperator::Divide => {
                        out.push(Instruction::Mov {
                            src: operand_of(left),
                            dst: Operand::Register(Register::AX),
                        });
                        out.push(Instruction::Cdq);
                        out.push(Instruction::Idiv(operand_of(right)));
                        out.push(Instruction::Mov {
                            src: Operand::Register(Register::AX),
                            dst: operand_of(dst),
                        });
                    },
                    tacky::BinaryOperator::Remainder => {
                        out.push(Instruction::Mov {
                            src: operand_of(left),
                            dst: Operand::Register(Register::AX),
                        });
                        out.push(Instruction::Cdq);
                        out.push(Instruction::Idiv(operand_of(right)));
                        out.push(Instruction::Mov {
                            src: Operand::Register(Register::DX),
                            dst: operand_of(dst),
                        });
                    },
                    tacky::BinaryOperator::Add => {
                        out.push(Instruction::Mov { src: operand_of(left), dst: operand_of(dst) });
                        out.push(Instruction::Binary {
                            operator: BinaryOperator::Add,
                            src: operand_of(right),
                            dst: operand_of(dst),
                        });
                    },
                    tacky::BinaryOperator::Subtract => {
                        out.push(Instruction::Mov { src: operand_of(left), dst: operand_of(dst) });
                        out.push(Instruction::Binary {
                            operator: BinaryOperator::Sub,
                            src: operand_of(right),
                            dst: operand_of(dst),
                        });
                    },
                    tacky::BinaryOperator::Multiply => {
                        out.push(Instruction::Mov { src: operand_of(left), dst: operand_of(dst) });
                        out.push(Instruction::Binary {
                            operator: BinaryOperator::Mult,
                            src: operand_of(right),
                            dst: operand_of(dst),
                        });
                    },
                }
            },
        }
        proof {
            assert(instructions_view(out@) =~= pre + sp_select_instr(all[i as int]));
            assert((pre + sp_select_instr(all[i as int])) + sp_select(all.skip(i + 1)) =~= pre + (
            sp_select_instr(all[i as int]) + sp_select(all.skip(i + 1))));
        }
        i = i + 1;
    }
    proof {
        assert(all.skip(is.len() as int) =~= Seq::<tacky::InstructionView>::empty());
        assert(instructions_view(out@) + Seq::<InstructionView>::empty() =~= instructions_view(
            out@,
        ));
    }
    out
}

/// The slot table is faithful to the model map: every entry agrees
/// with the map, and every key of the map has an entry.
spec fn table_wf(t: Seq<(String, u32)>, m: Map<Seq<char>, u32>) -> bool {
    &&& forall|i: int|
        0 <= i < t.len() ==> m.dom().contains(#[trigger] t[i].0@) && m[t[i].0@] == t[i].1
    &&& forall|k: Seq<char>|
        m.dom().contains(k) ==> exists|i: int| 0 <= i < t.len() && #[trigger] t[i].0@ == k
}

/// Finds the slot already assigned to `name`, if any.
fn lookup(table: &Vec<(String, u32)>, name: &String, Ghost(m): Ghost<Map<Seq<char>, u32>>) -> (r:
    Option<u32>)
    requires
        table_wf(table@, m),
    ensures
        match r {
            Some(v) => m.dom().contains(name@) && m[name@] == v,
            None => !m.dom().contains(name@),
        },
{
    let mut i: usize = 0;
    while i < table.len()
        invariant
            table_wf(table@, m),
            i <= table.len(),
            forall|j: int| 0 <= j < i ==> #[trigger] table@[j].0@ != name@,
        decreases table.len() - i,
    {
        if table[i].0.eq(name) {
            return Some(table[i].1);
        }
        i = i + 1;
    }
    proof {
        if m.dom().contains(name@) {
            let j = choose|j: int| 0 <= j < table@.len() && #[trigger] table@[j].0@ == name@;
            assert(false);
        }
    }
    None
}

/// Rewrites one operand: pseudos get their slot, assigned on first
/// occurrence; other operands pass through.
fn stack_offset(
    op: Operand,
    table: &mut Vec<(String, u32)>,
    count: u32,
    Ghost(m): Ghost<Map<Seq<char>, u32>>,
) -> (r: (Operand, u32))
    requires
        table_wf(old(table)@, m),
        count < 0x3fff_ffff,
    ensures
        ({
            let (ro, m2, c2) = sp_offset(op@, m, count as nat);
            &&& r.0@ == ro
            &&& r.1 as nat == c2
            &&& count <= r.1 <= count + 1
            &&& table_wf(final(table)@, m2)
        }),
{
    match op {
        Operand::Pseudo(name) => {
            match lookup(table, &name, Ghost(m)) {
                Some(off) => (Operand::Stack(off), count),
                None => {
                    let off = (count + 1) * 4;
                    let ghost m2 = m.insert(name@, off);
                    table.push((name, off));
                    proof {
                        assert forall|k: Seq<char>| m2.dom().contains(k) implies exists|i: int|
                            0 <= i < table@.len() && #[trigger] table@[i].0@ == k by {
                            if k == table@.last().0@ {
                                assert(table@[table@.len() - 1].0@ == k);
                            } else {
                                let i = choose|i: int|
                                    0 <= i < table@.len() - 1 && #[trigger] old(table)@[i].0@ == k;
                                assert(table@[i].0@ == k);
                            }
                        }
                    }
                    (Operand::Stack(off), count + 1)
                },
            }
        },
        _ => (op, count),
    }
}

/// Rewrites every pseudo operand to its stack slot and yields the
/// frame size: 4 bytes for each distinct pseudo.
fn replace_pseudo_registers(program: Program) -> (r: (Program, u32))
    requires
        program.function.instructions@.len() <= 0x0fff_ffff,
    ensures
        ({
            let (out, m2, c2) = sp_replace(
                instructions_view(program.function.instructions@),
                Map::empty(),
                0,
            );
            &&& instructions_view(r.0.function.instructions@) == out
            &&& r.0.function.instructions@.len() == program.function.instructions@.len()
            &&& r.0@.function.name == program@.function.name
            &&& r.1 as nat == 4 * c2
        }),
{
    let Program { function } = program;
    let Function { name, instructions: instrs } = function;
    let ghost all = instructions_view(instrs@);
    let mut out: Vec<Instruction> = Vec::new();
    let mut table: Vec<(String, u32)> = Vec::new();
    let mut count: u32 = 0;
    let ghost mut m: Map<Seq<char>, u32> = Map::empty();
    let mut i: usize = 0;
    proof {
        assert(all.skip(0) =~= all);
        assert(instructions_view(out@) =~= Seq::<InstructionView>::empty());
    }
    while i < instrs.len()
        invariant
            i <= instrs.len(),
            instrs.len() <= 0x0fff_ffff,
            all == instructions_view(instrs@),
            table_wf(table@, m),
            count as nat <= 2 * i,
            out@.len() == i,
            ({
                let (fin, m2, c2) = sp_replace(all, Map::empty(), 0);
                let (rest, rm, rc) = sp_replace(all.skip(i as int), m, count as nat);
                &&& fin == instructions_view(out@) + rest
                &&& m2 == rm
                &&& c2 == rc
            }),
        decreases instrs.len() - i,
    {
        let ghost pre = instructions_view(out@);
        let ghost rest = all.skip(i as int);
        let ghost m0 = m;
        let ghost c0 = count as nat;
        proof {
            assert(rest[0] == all[i as int]);
            assert(rest.skip(1) =~= all.skip(i + 1));
        }
        let instr = &instrs[i];
        let replaced: Instruction = match instr {
            Instruction::Mov { src, dst } => {
                let (s2, c1) = stack_offset(src.clone(), &mut table, count, Ghost(m));
                proof {
                    m = sp_offset(src@, m, count as nat).1;
                }
                let (d2, c2) = stack_offset(dst.clone(), &mut table, c1, Ghost(m));
                proof {
                    m = sp_offset(dst@, m, c1 as nat).1;
                }
                count = c2;
                Instruction::Mov { src: s2, dst: d2 }
            },
            Instruction::Unary { operator, operand } => {
                let (o2, c1) = stack_offset(operand.clone(), &mut table, count, Ghost(m));
                proof {
                    m = sp_offset(operand@, m, count as nat).1;
                }
                count = c1;
                Instruction::Unary { operator: *operator, operand: o2 }
            },
            Instruction::Binary { operator, src, dst } => {
                let (s2, c1) = stack_offset(src.clone(), &mut table, count, Ghost(m));
                proof {
                    m = sp_offset(src@, m, count as nat).1;
                }
                let (d2, c2) = stack_offset(dst.clone(), &mut table, c1, Ghost(m));
                proof {
                    m = sp_offset(dst@, m, c1 as nat).1;
                }
                count = c2;
                Instruction::Binary { operator: *operator, src: s2, dst: d2 }
            },
            Instruction::Idiv(op) => {
                let (o2, c1) = stack_offset(op.clone(), &mut table, count, Ghost(m));
                proof {
                    m = sp_offset(op@, m, count as nat).1;
                }
                count = c1;
                Instruction::Idiv(o2)
            },
            Instruction::Cdq => Instruction::Cdq,
            Instruction::AllocateStack(n) => Instruction::AllocateStack(*n),
            Instruction::Ret => Instruction::Ret,
        };
        let ghost rv = replaced@;
        out.push(replaced);
        proof {
            let (i2, m1, c1) = sp_replace_instr(all[i as int], m0, c0);
            assert(rv == i2);
            assert(m == m1);
            assert(count as nat == c1);
            assert(instructions_view(out@) =~= pre + seq![rv]);
            let (r1, rm1, rc1) = sp_replace(all.skip(i + 1), m1, c1);
            assert((pre + seq![rv]) + r1 =~= pre + (seq![rv] + r1));
        }
        i = i + 1;
    }
    proof {
        assert(all.skip(instrs.len() as int) =~= Seq::<InstructionView>::empty());
        assert(instructions_view(out@) + Seq::<InstructionView>::empty() =~= instructions_view(
            out@,
        ));
    }
    (Program { function: Function { name, instructions: out } }, count * 4)
}

/// Prepends the stack allocation and rewrites each instruction into a
/// legal form.
fn fixing_up(program: Program, stack_size: u32) -> (r: Program)
    ensures
        r@.function.name == program@.function.name,
        instructions_view(r.function.instructions@) == seq![
            InstructionView::AllocateStack(stack_size),
        ] + sp_fixup(instructions_view(program.function.instructions@)),
{
    let Program { function } = program;
    let Function { name, instructions: instrs } = function;
    let ghost all = instructions_view(instrs@);
    let mut out: Vec<Instruction> = Vec::new();
    out.push(Instruction::AllocateStack(stack_size));
    let mut i: usize = 0;
    proof {
        assert(all.skip(0) =~= all);
        assert(instructions_view(out@) =~= seq![InstructionView::AllocateStack(stack_size)]);
    }
    while i < instrs.len()
        invariant
            i <= instrs.len(),
            all == instructions_view(instrs@),
            instructions_view(out@) + sp_fixup(all.skip(i as int)) == seq![
                InstructionView::AllocateStack(stack_size),
            ] + sp_fixup(all),
        decreases instrs.len() - i,
    {
        let ghost pre = instructions_view(out@);
        let ghost rest = all.skip(i as int);
        proof {
            assert(rest[0] == all[i as int]);
            assert(rest.skip(1) =~= all.skip(i + 1));
        }
        match &instrs[i] {
            Instruction::Mov { src, dst } => {
                let src_stack = matches!(src, Operand::Stack(_));
                let dst_stack = matches!(dst, Operand::Stack(_));
                if src_stack && dst_stack {
                    out.push(Instruction::Mov {
                        src: src.clone(),
                        dst: Operand::Register(Register::R10),
                    });
                    out.push(Instruction::Mov {
                        src: Operand::Register(Register::R10),
                        dst: dst.clone(),
                    });
                } else {
                    out.push(Instruction::Mov { src: src.clone(), dst: dst.clone() });
                }
            },
            Instruction::Unary { operator, operand } => {
                out.push(Instruction::Unary { operator: *operator, operand: operand.clone() });
            },
            Instruction::Binary { operator, src, dst } => {
                match operator {
                    BinaryOperator::Mult => {
                        if matches!(dst, Operand::Stack(_)) {
                            out.push(Instruction::Mov {
                                src: dst.clone(),
                                dst: Operand::Register(Register::R11),
                            });
                            out.push(Instruction::Binary {
                                operator: BinaryOperator::Mult,
                                src: src.clone(),
                                dst: Operand::Register(Register::R11),
                            });
                            out.push(Instruction::Mov {
                                src: Operand::Register(Register::R11),
                                dst: dst.clone(),
                            });
                        } else {
                            out.push(Instruction::Binary {
                                operator: BinaryOperator::Mult,
                                src: src.clone(),
                                dst: dst.clone(),
                            });
                        }
                    },
                    _ => {
                        let both = matches!(src, Operand::Stack(_)) && matches!(
                            dst,
                            Operand::Stack(_),
                        );
                        if both {
                            out.push(Instruction::Mov {
                                src: src.clone(),
                                dst: Operand::Register(Register::R10),
                            });
                            out.push(Instruction::Binary {
                                operator: *operator,
                                src: Operand::Register(Register::R10),
                                dst: dst.clone(),
                            });
                        } else {
                            out.push(Instruction::Binary {
                                operator: *operator,
                                src: src.clone(),
                                dst: dst.clone(),
                            });
                        }
                    },
                }
            },
            Instruction::Idiv(op) => {
                if matches!(op, Operand::Imm(_)) {
                    out.push(Instruction::Mov {
                        src: op.clone(),
                        dst: Operand::Register(Register::R10),
                    });
                    out.push(Instruction::Idiv(Operand::Register(Register::R10)));
                } else {
                    out.push(Instruction::Idiv(op.clone()));
                }
            },
            Instruction::Cdq => {
                out.push(Instruction::Cdq);
            },
            Instruction::AllocateStack(n) => {
                out.push(Instruction::AllocateStack(*n));
            },
            Instruction::Ret => {
                out.push(Instruction::Ret);
            },
        }
        proof {
            assert(instructions_view(out@) =~= pre + sp_fix_instr(all[i as int]));
            assert((pre + sp_fix_instr(all[i as int])) + sp_fixup(all.skip(i + 1)) =~= pre + (
            sp_fix_instr(all[i as int]) + sp_fixup(all.skip(i + 1))));
        }
        i = i + 1;
    }
    proof {
        assert(all.skip(instrs.len() as int) =~= Seq::<InstructionView>::empty());
        assert(instructions_view(out@) + Seq::<InstructionView>::empty() =~= instructions_view(
            out@,
        ));
    }
    Program { function: Function { name, instructions: out } }
}

/// Whether an instruction satisfies the x86 operand restrictions this
/// backend must respect.
pub open spec fn is_legal(i: InstructionView) -> bool {
    match i {
        InstructionView::Mov { src, dst } => !(src is Stack && dst is Stack),
        InstructionView::Binary { operator, src, dst } => match operator {
            BinaryOperator::Mult => !(dst is Stack),
            _ => !(src is Stack && dst is Stack),
        },
        InstructionView::Idiv(op) => !(op is Imm),
        _ => true,
    }
}

proof fn lemma_fixup_legal_all(is: Seq<InstructionView>)
    ensures
        forall|k: int| 0 <= k < sp_fixup(is).len() ==> is_legal(#[trigger] sp_fixup(is)[k]),
    decreases is.len(),
{
    if is.len() == 0 {
    } else {
        lemma_fixup_legal_all(is.skip(1));
        let fx = sp_fix_instr(is[0]);
        assert forall|k: int| 0 <= k < sp_fixup(is).len() implies is_legal(
            #[trigger] sp_fixup(is)[k],
        ) by {
            if k < fx.len() {
                assert(sp_fixup(is)[k] == fx[k]);
            } else {
                assert(sp_fixup(is)[k] == sp_fixup(is.skip(1))[k - fx.len()]);
            }
        }
    }
}

/// Legal output: in the final assembly no `Mov` or `Add`/`Sub` has two
/// stack operands, no `Mult` writes to a stack slot, and no `Idiv`
/// takes an immediate operand.
pub proof fn lemma_assembly_legal(p: tacky::ProgramView)
    ensures
        forall|k: int|
            0 <= k < sp_assembly(p).function.instructions.len() ==> is_legal(
                #[trigger] sp_assembly(p).function.instructions[k],
            ),
{
    let selected = sp_select(p.function.body);
    let (replaced, m, count) = sp_replace(selected, Map::empty(), 0);
    lemma_fixup_legal_all(replaced);
    let instrs = sp_assembly(p).function.instructions;
    assert forall|k: int| 0 <= k < instrs.len() implies is_legal(#[trigger] instrs[k]) by {
        if k == 0 {
            assert(instrs[0] == InstructionView::AllocateStack(((4 * count) as u32)));
        } else {
            assert(instrs[k] == sp_fixup(replaced)[k - 1]);
        }
    }
}

/// Whether any operand of an instruction is still a pseudo register.
pub open spec fn instr_has_pseudo(i: InstructionView) -> bool {
    match i {
        InstructionView::Mov { src, dst } => src is Pseudo || dst is Pseudo,
        InstructionView::Unary { operand, .. } => operand is Pseudo,
        InstructionView::Binary { src, dst, .. } => src is Pseudo || dst is Pseudo,
        InstructionView::Idiv(op) => op is Pseudo,
        _ => false,
    }
}

/// Whether a body is free of pseudo registers.
pub open spec fn has_no_pseudos(is: Seq<InstructionView>) -> bool {
    forall|k: int| 0 <= k < is.len() ==> !instr_has_pseudo(#[trigger] is[k])
}

proof fn lemma_replace_no_pseudos(is: Seq<InstructionView>, m: Map<Seq<char>, u32>, count: nat)
    ensures
        has_no_pseudos(sp_replace(is, m, count).0),
    decreases is.len(),
{
    if is.len() == 0 {
    } else {
        let (i2, m1, c1) = sp_replace_instr(is[0], m, count);
        lemma_replace_no_pseudos(is.skip(1), m1, c1);
        let (rest, m2, c2) = sp_replace(is.skip(1), m1, c1);
        assert(!instr_has_pseudo(i2));
        assert forall|k: int| 0 <= k < sp_replace(is, m, count).0.len() implies !instr_has_pseudo(
            #[trigger] sp_replace(is, m, count).0[k],
        ) by {
            if k == 0 {
                assert(sp_replace(is, m, count).0[0] == i2);
            } else {
                assert(sp_replace(is, m, count).0[k] == rest[k - 1]);
            }
        }
    }
}

proof fn lemma_fixup_no_pseudos(is: Seq<InstructionView>)
    requires
        has_no_pseudos(is),
    ensures
        has_no_pseudos(sp_fixup(is)),
    decreases is.len(),
{
    if is.len() == 0 {
    } else {
        assert(!instr_has_pseudo(is[0]));
        assert(has_no_pseudos(is.skip(1))) by {
            assert forall|k: int| 0 <= k < is.skip(1).len() implies !instr_has_pseudo(
                #[trigger] is.skip(1)[k],
            ) by {
                assert(is.skip(1)[k] == is[k + 1]);
            }
        }
        lemma_fixup_no_pseudos(is.skip(1));
        let fx = sp_fix_instr(is[0]);
        assert forall|k: int| 0 <= k < sp_fixup(is).len() implies !instr_has_pseudo(
            #[trigger] sp_fixup(is)[k],
        ) by {
            if k < fx.len() {
                assert(sp_fixup(is)[k] == fx[k]);
            } else {
                assert(sp_fixup(is)[k] == sp_fixup(is.skip(1))[k - fx.len()]);
            }
        }
    }
}

/// The final assembly holds no pseudo operands: replacement rewrote
/// them all, and legalization introduces none.
pub proof fn lemma_assembly_no_pseudos(p: tacky::ProgramView)
    ensures
        has_no_pseudos(sp_assembly(p).function.instructions),
{
    let selected = sp_select(p.function.body);
    let (replaced, m, count) = sp_replace(selected, Map::empty(), 0);
    lemma_replace_no_pseudos(selected, Map::empty(), 0);
    lemma_fixup_no_pseudos(replaced);
    let instrs = sp_assembly(p).function.instructions;
    assert forall|k: int| 0 <= k < instrs.len() implies !instr_has_pseudo(
        #[trigger] instrs[k],
    ) by {
        if k > 0 {
            assert(instrs[k] == sp_fixup(replaced)[k - 1]);
        }
    }
}

/// The pseudo names an operand mentions.
pub open spec fn operand_pseudos(op: OperandView) -> Set<Seq<char>> {
    match op {
        OperandView::Pseudo(n) => Set::empty().insert(n),
        _ => Set::empty(),
    }
}

/// The pseudo names an instruction mentions.
pub open spec fn instr_pseudos(i: InstructionView) -> Set<Seq<char>> {
    match i {
        InstructionView::Mov { src, dst } => operand_pseudos(src).union(operand_pseudos(dst)),
        InstructionView::Unary { operand, .. } => operand_pseudos(operand),
        InstructionView::Binary { src, dst, .. } => operand_pseudos(src).union(
            operand_pseudos(dst),
        ),
        InstructionView::Idiv(op) => operand_pseudos(op),
        _ => Set::empty(),
    }
}

/// The distinct pseudo names a body mentions.
pub open spec fn pseudos(is: Seq<InstructionView>) -> Set<Seq<char>>
    decreases is.len(),
{
    if is.len() == 0 {
        Set::empty()
    } else {
        instr_pseudos(is[0]).union(pseudos(is.skip(1)))
    }
}

proof fn lemma_offset_count(op: OperandView, m: Map<Seq<char>, u32>, count: nat)
    requires
        m.dom().finite(),
        count == m.dom().len(),
    ensures
        ({
            let (o2, m2, c2) = sp_offset(op, m, count);
            &&& m2.dom().finite()
            &&& c2 == m2.dom().len()
            &&& m2.dom() == m.dom().union(operand_pseudos(op))
        }),
{
    let (o2, m2, c2) = sp_offset(op, m, count);
    match op {
        OperandView::Pseudo(name) => {
            if m.dom().contains(name) {
                assert(m2.dom() =~= m.dom().union(operand_pseudos(op)));
            } else {
                assert(m2.dom() =~= m.dom().insert(name));
                assert(m2.dom() =~= m.dom().union(operand_pseudos(op)));
            }
        },
        _ => {
            assert(m2.dom() =~= m.dom().union(operand_pseudos(op)));
        },
    }
}

proof fn lemma_replace_instr_count(i: InstructionView, m: Map<Seq<char>, u32>, count: nat)
    requires
        m.dom().finite(),
        count == m.dom().len(),
    ensures
        ({
            let (i2, m2, c2) = sp_replace_instr(i, m, count);
            &&& m2.dom().finite()
            &&& c2 == m2.dom().len()
            &&& m2.dom() == m.dom().union(instr_pseudos(i))
        }),
{
    let (i2, m2, c2) = sp_replace_instr(i, m, count);
    match i {
        InstructionView::Mov { src, dst } => {
            lemma_offset_count(src, m, count);
            let (s2, m1, c1) = sp_offset(src, m, count);
            lemma_offset_count(dst, m1, c1);
            assert(m2.dom() =~= m.dom().union(instr_pseudos(i)));
        },
        InstructionView::Unary { operator, operand } => {
            lemma_offset_count(operand, m, count);
            assert(m2.dom() =~= m.dom().union(instr_pseudos(i)));
        },
        InstructionView::Binary { operator, src, dst } => {
            lemma_offset_count(src, m, count);
            let (s2, m1, c1) = sp_offset(src, m, count);
            lemma_offset_count(dst, m1, c1);
            assert(m2.dom() =~= m.dom().union(instr_pseudos(i)));
        },
        InstructionView::Idiv(op) => {
            lemma_offset_count(op, m, count);
            assert(m2.dom() =~= m.dom().union(instr_pseudos(i)));
        },
        _ => {
            assert(m2.dom() =~= m.dom().union(instr_pseudos(i)));
        },
    }
}

proof fn lemma_replace_count(is: Seq<InstructionView>, m: Map<Seq<char>, u32>, count: nat)
    requires
        m.dom().finite(),
        count == m.dom().len(),
    ensures
        ({
            let (out, m2, c2) = sp_replace(is, m, count);
            &&& m2.dom().finite()
            &&& c2 == m2.dom().len()
            &&& m2.dom() == m.dom().union(pseudos(is))
        }),
    decreases is.len(),
{
    let (out, m2, c2) = sp_replace(is, m, count);
    if is.len() == 0 {
        assert(m2.dom() =~= m.dom().union(pseudos(is)));
    } else {
        lemma_replace_instr_count(is[0], m, count);
        let (i2, m1, c1) = sp_replace_instr(is[0], m, count);
        lemma_replace_count(is.skip(1), m1, c1);
        assert(m2.dom() =~= m.dom().union(pseudos(is)));
    }
}

/// Frame size: the `AllocateStack` immediate at the head of the final
/// assembly equals 4 bytes for each distinct pseudo register of the
/// selected code.
pub proof fn lemma_frame_size(p: tacky::ProgramView)
    ensures
        sp_assembly(p).function.instructions[0] == InstructionView::AllocateStack(
            ((4 * pseudos(sp_select(p.function.body)).len()) as u32),
        ),
{
    let selected = sp_select(p.function.body);
    let empty_m = Map::<Seq<char>, u32>::empty();
    assert(empty_m.dom() =~= Set::<Seq<char>>::empty());
    lemma_replace_count(selected, empty_m, 0);
    let (replaced, m2, c2) = sp_replace(selected, empty_m, 0);
    assert(m2.dom() =~= pseudos(selected));
}

} // verus!
