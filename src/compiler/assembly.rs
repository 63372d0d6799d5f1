use vstd::prelude::*;

use super::ast::{BinOp, Expr, Factor, Node, NodeModel, Statement, Term, UnOp};
use super::text::{i32_text, int_text};

verus! {

/// The x86 instructions that the generator emits. Every expression leaves its
/// value in `%eax`; the left operand of a binary operator waits on the stack
/// and comes back in `%ecx`.
#[derive(Debug, PartialEq, Eq, Clone, Copy)]
pub enum Instr {
    /// `movl $n, %eax`
    MovImm(i32),
    /// `neg %eax`
    Neg,
    /// `not %eax`
    Not,
    /// `cmpl $0, %eax`
    CmpZero,
    /// `movl $0, %eax`
    ClearEax,
    /// `sete %al`
    SetEqual,
    /// `push %rax`
    Push,
    /// `pop %rcx`
    Pop,
    /// `addl %ecx, %eax`
    AddEcx,
    /// `subl %eax, %ecx`
    SubFromEcx,
    /// `movl %ecx, %eax`
    MovEcxToEax,
    /// `imul %ecx, %eax`
    ImulEcx,
    /// `movl %eax, %ebx`
    MovEaxToEbx,
    /// `cdq`
    Cdq,
    /// `idivl %ebx`
    IdivEbx,
    /// `ret`
    Ret,
}

// ---------------------------------------------------------------------------
// Text
// ---------------------------------------------------------------------------

pub open spec fn instr_text(i: Instr) -> Seq<char> {
    match i {
        Instr::MovImm(n) => "  movl\t$"@ + int_text(n as int) + ", %eax"@,
        Instr::Neg => "  neg\t%eax"@,
        Instr::Not => "  not\t%eax"@,
        Instr::CmpZero => "  cmpl\t$0, %eax"@,
        Instr::ClearEax => "  movl\t$0, %eax"@,
        Instr::SetEqual => "  sete\t%al"@,
        Instr::Push => "  push\t%rax"@,
        Instr::Pop => "  pop\t%rcx"@,
        Instr::AddEcx => "  addl\t%ecx, %eax"@,
        Instr::SubFromEcx => "  subl\t%eax, %ecx"@,
        Instr::MovEcxToEax => "  movl\t%ecx, %eax"@,
        Instr::ImulEcx => "  imul\t%ecx, %eax"@,
        Instr::MovEaxToEbx => "  movl\t%eax, %ebx"@,
        Instr::Cdq => "  cdq"@,
        Instr::IdivEbx => "  idivl\t%ebx"@,
        Instr::Ret => "  ret"@,
    }
}

/// The text of the instructions, one per line, lines separated by `\n`.
pub open spec fn lines_text(code: Seq<Instr>) -> Seq<char>
    decreases code.len(),
{
    if code.len() == 0 {
        seq![]
    } else if code.len() == 1 {
        instr_text(code[0])
    } else {
        lines_text(code.drop_last()) + "\n"@ + instr_text(code.last())
    }
}

/// The text of a program: the function's exported label, then its code.
pub open spec fn program_text(name: Seq<char>, code: Seq<Instr>) -> Seq<char> {
    ".globl _"@ + name + "\n_"@ + name + ":\n"@ + lines_text(code)
}

// ---------------------------------------------------------------------------
// Code
// ---------------------------------------------------------------------------

pub open spec fn unary_code(op: UnOp) -> Seq<Instr> {
    match op {
        UnOp::Negate => seq![Instr::Neg],
        UnOp::Complement => seq![Instr::Not],
        UnOp::LogicalNegate => seq![Instr::CmpZero, Instr::ClearEax, Instr::SetEqual],
    }
}

/// What combines the left operand in `%ecx` with the right one in `%eax`.
pub open spec fn binary_code(op: BinOp) -> Seq<Instr> {
    match op {
        BinOp::Add => seq![Instr::AddEcx],
        BinOp::Subtract => seq![Instr::SubFromEcx, Instr::MovEcxToEax],
        BinOp::Multiply => seq![Instr::ImulEcx],
        BinOp::Divide => seq![Instr::MovEaxToEbx, Instr::MovEcxToEax, Instr::Cdq, Instr::IdivEbx],
    }
}

/// Evaluate `a`, save it on the stack, evaluate `b`, restore `a` in `%ecx`,
/// and combine.
pub open spec fn binary_op_code(a: Seq<Instr>, op: BinOp, b: Seq<Instr>) -> Seq<Instr> {
    a + seq![Instr::Push] + b + seq![Instr::Pop] + binary_code(op)
}

pub open spec fn factor_code(f: Factor) -> Seq<Instr>
    decreases f,
{
    match f {
        Factor::IntLiteral(n) => seq![Instr::MovImm(n)],
        Factor::UnOp(op, g) => factor_code(*g) + unary_code(op),
        Factor::BinOp(op, a, b) => binary_op_code(factor_code(*a), op, factor_code(*b)),
        Factor::Expr(e) => expr_code(*e),
    }
}

pub open spec fn term_code(t: Term) -> Seq<Instr>
    decreases t,
{
    match t {
        Term::Factor(f) => factor_code(*f),
        Term::BinOp(op, a, b) => binary_op_code(term_code(*a), op, term_code(*b)),
    }
}

pub open spec fn expr_code(e: Expr) -> Seq<Instr>
    decreases e,
{
    match e {
        Expr::Term(t) => term_code(*t),
    }
}

/// The assembly text of a tree of the shape that the grammar gives, `None`
/// for any other shape.
pub open spec fn assembly_of(n: NodeModel) -> Option<Seq<char>> {
    match n {
        NodeModel::Program(f) => match *f {
            NodeModel::Function(name, body) => match *body {
                NodeModel::Statement(Statement::Return, e) => Some(
                    program_text(name, expr_code(e).push(Instr::Ret)),
                ),
                _ => None,
            },
            _ => None,
        },
        _ => None,
    }
}

// ---------------------------------------------------------------------------
// The generator
// ---------------------------------------------------------------------------

fn instr_to_text(i: Instr) -> (r: String)
    ensures
        r@ == instr_text(i),
{
    match i {
        Instr::MovImm(n) => {
            let mut t = String::from_str("  movl\t$");
            let digits = i32_text(n);
            t.append(digits.as_str());
            t.append(", %eax");
            t
        },
        Instr::Neg => String::from_str("  neg\t%eax"),
        Instr::Not => String::from_str("  not\t%eax"),
        Instr::CmpZero => String::from_str("  cmpl\t$0, %eax"),
        Instr::ClearEax => String::from_str("  movl\t$0, %eax"),
        Instr::SetEqual => String::from_str("  sete\t%al"),
        Instr::Push => String::from_str("  push\t%rax"),
        Instr::Pop => String::from_str("  pop\t%rcx"),
        Instr::AddEcx => String::from_str("  addl\t%ecx, %eax"),
        Instr::SubFromEcx => String::from_str("  subl\t%eax, %ecx"),
        Instr::MovEcxToEax => String::from_str("  movl\t%ecx, %eax"),
        Instr::ImulEcx => String::from_str("  imul\t%ecx, %eax"),
        Instr::MovEaxToEbx => String::from_str("  movl\t%eax, %ebx"),
        Instr::Cdq => String::from_str("  cdq"),
        Instr::IdivEbx => String::from_str("  idivl\t%ebx"),
        Instr::Ret => String::from_str("  ret"),
    }
}

/// The text of `code`, one instruction per line.
fn render(code: &Vec<Instr>) -> (r: String)
    ensures
        r@ == lines_text(code@),
{
    let mut text = String::new();
    let mut i: usize = 0;
    while i < code.len()
        invariant
            i <= code.len(),
            text@ == lines_text(code@.take(i as int)),
        decreases code.len() - i,
    {
        let ghost before = text@;
        if i > 0 {
            text.append("\n");
        }
        let line = instr_to_text(code[i]);
        text.append(line.as_str());
        proof {
            let next = code@.take(i + 1);
            assert(next.drop_last() =~= code@.take(i as int));
            assert(next.last() == code@[i as int]);
            if i == 0 {
                assert(before =~= seq![]);
                assert(text@ =~= instr_text(code@[0]));
            }
        }
        i += 1;
    }
    assert(code@.take(i as int) =~= code@);
    text
}

/// Emits, after the operand's code, the code of a unary operator applied to
/// `%eax`.
fn generate_unary_op(op: UnOp, out: &mut Vec<Instr>)
    ensures
        final(out)@ == old(out)@ + unary_code(op),
{
    match op {
        UnOp::Negate => out.push(Instr::Neg),
        UnOp::Complement => out.push(Instr::Not),
        UnOp::LogicalNegate => {
            out.push(Instr::CmpZero);
            // Zero the register before setting its low byte.
            out.push(Instr::ClearEax);
            out.push(Instr::SetEqual);
        },
    }
    assert(final(out)@ =~= old(out)@ + unary_code(op));
}

/// Emits the code that combines the left operand in `%ecx` with the right one
/// in `%eax`, leaving the result in `%eax`.
fn generate_binary_op(op: BinOp, out: &mut Vec<Instr>)
    ensures
        final(out)@ == old(out)@ + binary_code(op),
{
    match op {
        BinOp::Add => out.push(Instr::AddEcx),
        BinOp::Subtract => {
            // The left operand is in %ecx: subtract there and move it back.
            out.push(Instr::SubFromEcx);
            out.push(Instr::MovEcxToEax);
        },
        BinOp::Multiply => out.push(Instr::ImulEcx),
        BinOp::Divide => {
            // Divisor to %ebx, dividend to %eax, sign-extended into %edx.
            out.push(Instr::MovEaxToEbx);
            out.push(Instr::MovEcxToEax);
            out.push(Instr::Cdq);
            out.push(Instr::IdivEbx);
        },
    }
    assert(final(out)@ =~= old(out)@ + binary_code(op));
}

fn generate_factor(f: &Factor, out: &mut Vec<Instr>)
    ensures
        final(out)@ == old(out)@ + factor_code(*f),
    decreases f,
{
    match f {
        Factor::IntLiteral(n) => {
            out.push(Instr::MovImm(*n));
            assert(final(out)@ =~= old(out)@ + factor_code(*f));
        },
        Factor::UnOp(op, g) => {
            generate_factor(g, out);
            generate_unary_op(*op, out);
            assert(final(out)@ =~= old(out)@ + factor_code(*f));
        },
        Factor::BinOp(op, a, b) => {
            generate_factor(a, out);
            out.push(Instr::Push);
            generate_factor(b, out);
            out.push(Instr::Pop);
            generate_binary_op(*op, out);
            assert(final(out)@ =~= old(out)@ + factor_code(*f));
        },
        Factor::Expr(e) => {
            generate_expr(e, out);
        },
    }
}

fn generate_term(t: &Term, out: &mut Vec<Instr>)
    ensures
        final(out)@ == old(out)@ + term_code(*t),
    decreases t,
{
    match t {
        Term::Factor(f) => {
            generate_factor(f, out);
        },
        Term::BinOp(op, a, b) => {
            generate_term(a, out);
            out.push(Instr::Push);
            generate_term(b, out);
            out.push(Instr::Pop);
            generate_binary_op(*op, out);
            assert(final(out)@ =~= old(out)@ + term_code(*t));
        },
    }
}

fn generate_expr(e: &Expr, out: &mut Vec<Instr>)
    ensures
        final(out)@ == old(out)@ + expr_code(*e),
    decreases e,
{
    match e {
        Expr::Term(t) => {
            generate_term(t, out);
        },
    }
}

/// The assembly text of a program; fails on a tree that is not a program
/// holding a function holding a `return` statement.
pub fn generate(ast: &Node) -> (r: Result<String, &'static str>)
    ensures
        match r {
            Ok(text) => assembly_of(ast@) == Some(text@),
            Err(_) => assembly_of(ast@) is None,
        },
{
    let function = match ast {
        Node::Program(f) => &**f,
        _ => {
            return Err("expected a program");
        },
    };
    assert(ast@ == NodeModel::Program(Box::new(function@)));
    let (name, body) = match function {
        Node::Function(name, body) => (name, &**body),
        _ => {
            return Err("expected a function");
        },
    };
    assert(function@ == NodeModel::Function(name@, Box::new(body@)));
    let expr = match body {
        Node::Statement(Statement::Return, e) => &**e,
        _ => {
            return Err("expected a return statement");
        },
    };
    let mut code: Vec<Instr> = Vec::new();
    generate_expr(expr, &mut code);
    code.push(Instr::Ret);
    assert(code@ =~= expr_code(*expr).push(Instr::Ret));
    let mut text = String::from_str(".globl _");
    text.append(name.as_str());
    text.append("\n_");
    text.append(name.as_str());
    text.append(":\n");
    let lines = render(&code);
    text.append(lines.as_str());
    Ok(text)
}

} // verus!
