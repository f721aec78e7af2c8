//! The emitter: legal assembly to AT&T-syntax text.
//!
//! `sp_codegen` is the specification-level rendering; the executable
//! `codegen` is proven to produce exactly that string. Operands render
//! as `$n`, `%eax`-style register names, or `-off(%rbp)` stack slots;
//! a pseudo operand at this stage would be a pipeline bug, so the
//! emitter requires that none is left.
use crate::assembly;
use crate::assembly::has_no_pseudos;
use crate::assembly::instr_has_pseudo;
use crate::decimal::dec_i32;
use crate::decimal::dec_nat;
use crate::decimal::push_dec_i32;
use crate::decimal::push_dec_u64;
use vstd::prelude::*;
use vstd::string::*;

verus! {

/// The text of a register, as used for 32-bit operands.
pub open spec fn sp_render_register(r: assembly::Register) -> Seq<char> {
    match r {
        assembly::Register::AX => "%eax"@,
        assembly::Register::DX => "%edx"@,
        assembly::Register::R10 => "%r10d"@,
        assembly::Register::R11 => "%r11d"@,
    }
}

/// The text of an operand. A pseudo renders as nothing; the emitter
/// refuses input that still holds one.
pub open spec fn sp_render_operand(op: assembly::OperandView) -> Seq<char> {
    match op {
        assembly::OperandView::Imm(n) => "$"@ + dec_i32(n),
        assembly::OperandView::Register(r) => sp_render_register(r),
        assembly::OperandView::Stack(off) => "-"@ + dec_nat(off as nat) + "(%rbp)"@,
        assembly::OperandView::Pseudo(_) => Seq::empty(),
    }
}

/// The mnemonic of a unary operator.
pub open spec fn sp_render_unary_op(op: assembly::UnaryOperator) -> Seq<char> {
    match op {
        assembly::UnaryOperator::Neg => "negl"@,
        assembly::UnaryOperator::Not => "notl"@,
    }
}

/// The mnemonic of a binary operator.
pub open spec fn sp_render_binary_op(op: assembly::BinaryOperator) -> Seq<char> {
    match op {
        assembly::BinaryOperator::Add => "addl"@,
        assembly::BinaryOperator::Sub => "subl"@,
        assembly::BinaryOperator::Mult => "imull"@,
    }
}

/// The text of one instruction, tab-indented, operands tab-separated
/// from the mnemonic. `Ret` restores the caller's frame and returns.
pub open spec fn sp_render_instr(i: assembly::InstructionView) -> Seq<char> {
    match i {
        assembly::InstructionView::Mov { src, dst } => "\tmovl\t"@ + sp_render_operand(src) + ", "@
            + sp_render_operand(dst),
        assembly::InstructionView::Unary { operator, operand } => "\t"@ + sp_render_unary_op(
            operator,
        ) + "\t"@ + sp_render_operand(operand),
        assembly::InstructionView::Binary { operator, src, dst } => "\t"@ + sp_render_binary_op(
            operator,
        ) + "\t"@ + sp_render_operand(src) + ", "@ + sp_render_operand(dst),
        assembly::InstructionView::Idiv(op) => "\tidivl\t"@ + sp_render_operand(op),
        assembly::InstructionView::Cdq => "\tcdq"@,
        assembly::InstructionView::AllocateStack(n) => "\tsubq\t$"@ + dec_nat(n as nat)
            + ", %rsp"@,
        assembly::InstructionView::Ret => "\tmovq\t%rbp, %rsp\n\tpopq\t%rbp\n\tret"@,
    }
}

/// Instruction texts joined by newlines.
pub open spec fn sp_render_body(is: Seq<assembly::InstructionView>) -> Seq<char>
    decreases is.len(),
{
    if is.len() == 0 {
        Seq::empty()
    } else if is.len() == 1 {
        sp_render_instr(is[0])
    } else {
        sp_render_body(is.drop_last()) + "\n"@ + sp_render_instr(is.last())
    }
}

/// The text of a function: directive, label, prologue, body.
pub open spec fn sp_render_function(f: assembly::FunctionView) -> Seq<char> {
    "\t.global "@ + f.name + "\n"@ + f.name + ":\n\tpushq\t%rbp\n\tmovq\t%rsp, %rbp\n"@
        + sp_render_body(f.instructions)
}

/// The whole output: the function, then the note marking the stack
/// non-executable.
pub open spec fn sp_codegen(p: assembly::ProgramView) -> Seq<char> {
    sp_render_function(p.function) + "\n\n\t.section .note.GNU-stack,\"\",@progbits"@
}

/// Renders a legal assembly program as AT&T-syntax text.
pub fn codegen(legal: assembly::Program) -> (r: String)
    requires
        has_no_pseudos(legal@.function.instructions),
    ensures
        r@ == sp_codegen(legal@),
{
    program(legal)
}

fn program(p: assembly::Program) -> (r: String)
    requires
        has_no_pseudos(p@.function.instructions),
    ensures
        r@ == sp_codegen(p@),
{
    let mut out = function_definition(p.function);
    out.append("\n\n\t.section .note.GNU-stack,\"\",@progbits");
    out
}

fn function_definition(function: assembly::Function) -> (r: String)
    requires
        has_no_pseudos(function@.instructions),
    ensures
        r@ == sp_render_function(function@),
{
    let ghost all = assembly::instructions_view(function.instructions@);
    let mut out = String::new();
    out.append("\t.global ");
    out.append(function.name.as_str());
    out.append("\n");
    out.append(function.name.as_str());
    out.append(":\n\tpushq\t%rbp\n\tmovq\t%rsp, %rbp\n");
    let ghost header = out@;
    let mut i: usize = 0;
    proof {
        assert(all.take(0) =~= Seq::<assembly::InstructionView>::empty());
    }
    while i < function.instructions.len()
        invariant
            i <= function.instructions.len(),
            all == assembly::instructions_view(function.instructions@),
            has_no_pseudos(all),
            out@ == header + sp_render_body(all.take(i as int)),
        decreases function.instructions.len() - i,
    {
        if i > 0 {
            out.append("\n");
        }
        proof {
            assert(all[i as int] == function.instructions@[i as int]@);
            assert(!instr_has_pseudo(all[i as int]));
        }
        instruction(&function.instructions[i], &mut out);
        proof {
            let pre = all.take(i as int);
            let cur = all.take(i + 1);
            assert(cur.drop_last() =~= pre);
            assert(cur.last() == all[i as int]);
        }
        i = i + 1;
    }
    proof {
        assert(all.take(function.instructions@.len() as int) =~= all);
    }
    out
}

/// Appends the text of one instruction.
fn instruction(instruction: &assembly::Instruction, out: &mut String)
    requires
        !instr_has_pseudo(instruction@),
    ensures
        final(out)@ == old(out)@ + sp_render_instr(instruction@),
{
    match instruction {
        assembly::Instruction::Mov { src, dst } => {
            out.append("\tmovl\t");
            operand(src, out);
            out.append(", ");
            operand(dst, out);
        },
        assembly::Instruction::Unary { operator, operand: op } => {
            out.append("\t");
            match operator {
                assembly::UnaryOperator::Neg => out.append("negl"),
                assembly::UnaryOperator::Not => out.append("notl"),
            }
            out.append("\t");
            operand(op, out);
        },
        assembly::Instruction::Binary { operator, src, dst } => {
            out.append("\t");
            match operator {
                assembly::BinaryOperator::Add => out.append("addl"),
                assembly::BinaryOperator::Sub => out.append("subl"),
                assembly::BinaryOperator::Mult => out.append("imull"),
            }
            out.append("\t");
            operand(src, out);
            out.append(", ");
            operand(dst, out);
        },
        assembly::Instruction::Idiv(op) => {
            out.append("\tidivl\t");
            operand(op, out);
        },
        assembly::Instruction::Cdq => {
            out.append("\tcdq");
        },
        assembly::Instruction::AllocateStack(n) => {
            out.append("\tsubq\t$");
            push_dec_u64(out, *n as u64);
            out.append(", %rsp");
        },
        assembly::Instruction::Ret => {
            out.append("\tmovq\t%rbp, %rsp\n\tpopq\t%rbp\n\tret");
        },
    }
    proof {
        assert(out@ =~= old(out)@ + sp_render_instr(instruction@));
    }
}

/// Appends the text of one operand, which must not be a pseudo.
fn operand(operand: &assembly::Operand, out: &mut String)
    requires
        !(operand@ is Pseudo),
    ensures
        final(out)@ == old(out)@ + sp_render_operand(operand@),
{
    match operand {
        assembly::Operand::Imm(n) => {
            out.append("$");
            push_dec_i32(out, *n);
        },
        assembly::Operand::Register(r) => {
            match r {
                assembly::Register::AX => out.append("%eax"),
                assembly::Register::DX => out.append("%edx"),
                assembly::Register::R10 => out.append("%r10d"),
                assembly::Register::R11 => out.append("%r11d"),
            }
        },
        assembly::Operand::Stack(off) => {
            out.append("-");
            push_dec_u64(out, *off as u64);
            out.append("(%rbp)");
        },
        assembly::Operand::Pseudo(_) => {
            proof {
                assert(false);
            }
        },
    }
    proof {
        assert(out@ =~= old(out)@ + sp_render_operand(operand@));
    }
}

} // verus!
