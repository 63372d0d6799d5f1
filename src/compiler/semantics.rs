//! What an expression means, what the emitted instructions do, and the proof
//! that the code generated for an expression computes its value.
use vstd::prelude::*;

use super::assembly::{
    binary_code, binary_op_code, expr_code, factor_code, term_code, unary_code, Instr,
};
use super::ast::{BinOp, Expr, Factor, Term, UnOp};

verus! {

// ---------------------------------------------------------------------------
// Values
// ---------------------------------------------------------------------------

/// `x` reduced to 32 bits, two's complement, as the machine's arithmetic
/// instructions do.
pub open spec fn wrap(x: int) -> i32 {
    x as i32
}

/// Division truncated toward zero, as in C.
pub open spec fn trunc_div(a: int, b: int) -> int {
    if a >= 0 {
        if b > 0 {
            a / b
        } else {
            -(a / (-b))
        }
    } else {
        if b > 0 {
            -((-a) / b)
        } else {
            (-a) / (-b)
        }
    }
}

pub open spec fn fits_i32(x: int) -> bool {
    i32::MIN <= x <= i32::MAX
}

/// The quotient of `a` by `b`; `None` where it is undefined: a zero divisor,
/// or a quotient outside the 32-bit range.
pub open spec fn quotient(a: int, b: int) -> Option<i32> {
    if b == 0 || !fits_i32(trunc_div(a, b)) {
        None
    } else {
        Some(trunc_div(a, b) as i32)
    }
}

pub open spec fn unary_value(op: UnOp, v: i32) -> i32 {
    match op {
        UnOp::Negate => wrap(-v),
        UnOp::Complement => !v,
        UnOp::LogicalNegate => if v == 0 {
            1
        } else {
            0
        },
    }
}

pub open spec fn binary_value(op: BinOp, a: i32, b: i32) -> Option<i32> {
    match op {
        BinOp::Add => Some(wrap(a + b)),
        BinOp::Subtract => Some(wrap(a - b)),
        BinOp::Multiply => Some(wrap(a * b)),
        BinOp::Divide => quotient(a as int, b as int),
    }
}

pub open spec fn apply_unary(op: UnOp, v: Option<i32>) -> Option<i32> {
    match v {
        Some(x) => Some(unary_value(op, x)),
        None => None,
    }
}

pub open spec fn apply_binary(op: BinOp, a: Option<i32>, b: Option<i32>) -> Option<i32> {
    match (a, b) {
        (Some(x), Some(y)) => binary_value(op, x, y),
        _ => None,
    }
}

/// The value of a factor under C's rules on 32-bit `int` (with wrapping
/// arithmetic, and 0 and 1 for booleans); `None` where a division is
/// undefined.
pub open spec fn eval_factor(f: Factor) -> Option<i32>
    decreases f,
{
    match f {
        Factor::IntLiteral(n) => Some(n),
        Factor::UnOp(op, g) => apply_unary(op, eval_factor(*g)),
        Factor::BinOp(op, a, b) => apply_binary(op, eval_factor(*a), eval_factor(*b)),
        Factor::Expr(e) => eval_expr(*e),
    }
}

pub open spec fn eval_term(t: Term) -> Option<i32>
    decreases t,
{
    match t {
        Term::Factor(f) => eval_factor(*f),
        Term::BinOp(op, a, b) => apply_binary(op, eval_term(*a), eval_term(*b)),
    }
}

pub open spec fn eval_expr(e: Expr) -> Option<i32>
    decreases e,
{
    match e {
        Expr::Term(t) => eval_term(*t),
    }
}

// ---------------------------------------------------------------------------
// The machine
// ---------------------------------------------------------------------------

/// The part of an x86-64 processor that the emitted code uses: the low 32 bits
/// of four registers, the zero flag (`None` where the last instruction that
/// set the flags is not modelled), and the stack, whose slots hold the low 32
/// bits of what was pushed.
pub struct Machine {
    pub eax: i32,
    pub ebx: i32,
    pub ecx: i32,
    pub edx: i32,
    pub zf: Option<bool>,
    pub stack: Seq<i32>,
}

/// The unsigned value of the 32 bits of `x`.
pub open spec fn unsigned(x: i32) -> int {
    if x < 0 {
        x + 4294967296
    } else {
        x as int
    }
}

/// What one instruction does; `None` where the processor faults (a division
/// error, a pop from an empty stack) or where the model does not say.
pub open spec fn step(m: Machine, i: Instr) -> Option<Machine> {
    match i {
        Instr::MovImm(n) => Some(Machine { eax: n, ..m }),
        Instr::Neg => Some(Machine { eax: wrap(-m.eax), zf: None, ..m }),
        Instr::Not => Some(Machine { eax: !m.eax, ..m }),
        Instr::CmpZero => Some(Machine { zf: Some(m.eax == 0), ..m }),
        Instr::ClearEax => Some(Machine { eax: 0, ..m }),
        Instr::SetEqual => match m.zf {
            Some(z) => Some(
                Machine {
                    eax: (m.eax & !0xffi32) | (if z {
                        1i32
                    } else {
                        0i32
                    }),
                    ..m
                },
            ),
            None => None,
        },
        Instr::Push => Some(Machine { stack: m.stack.push(m.eax), ..m }),
        Instr::Pop => if m.stack.len() == 0 {
            None
        } else {
            Some(Machine { ecx: m.stack.last(), stack: m.stack.drop_last(), ..m })
        },
        Instr::AddEcx => Some(Machine { eax: wrap(m.eax + m.ecx), zf: None, ..m }),
        Instr::SubFromEcx => Some(Machine { ecx: wrap(m.ecx - m.eax), zf: None, ..m }),
        Instr::MovEcxToEax => Some(Machine { eax: m.ecx, ..m }),
        Instr::ImulEcx => Some(Machine { eax: wrap(m.eax * m.ecx), zf: None, ..m }),
        Instr::MovEaxToEbx => Some(Machine { ebx: m.eax, ..m }),
        Instr::Cdq => Some(
            Machine {
                edx: if m.eax < 0 {
                    -1i32
                } else {
                    0i32
                },
                ..m
            },
        ),
        Instr::IdivEbx => {
            let dividend = m.edx * 4294967296 + unsigned(m.eax);
            match quotient(dividend, m.ebx as int) {
                Some(q) => Some(
                    Machine {
                        eax: q,
                        edx: wrap(dividend - q * m.ebx),
                        zf: None,
                        ..m
                    },
                ),
                None => None,
            }
        },
        Instr::Ret => Some(m),
    }
}

/// Runs `code` from `m`, in order; `None` if an instruction faults.
pub open spec fn run(code: Seq<Instr>, m: Machine) -> Option<Machine>
    decreases code.len(),
{
    if code.len() == 0 {
        Some(m)
    } else {
        match step(m, code[0]) {
            Some(next) => run(code.subrange(1, code.len() as int), next),
            None => None,
        }
    }
}

/// From every state, `code` leaves `v` in `%eax` and the stack as it found
/// it; or, where `v` is `None`, faults.
pub open spec fn computes(code: Seq<Instr>, v: Option<i32>) -> bool {
    forall|m: Machine|
        match v {
            Some(x) => #[trigger] run(code, m) matches Some(m2) && m2.eax == x && m2.stack
                == m.stack,
            None => run(code, m) is None,
        }
}

// ---------------------------------------------------------------------------
// Proofs
// ---------------------------------------------------------------------------

pub open spec fn then_run(r: Option<Machine>, code: Seq<Instr>) -> Option<Machine> {
    match r {
        Some(m) => run(code, m),
        None => None,
    }
}

proof fn lemma_run_append(a: Seq<Instr>, b: Seq<Instr>, m: Machine)
    ensures
        run(a + b, m) == then_run(run(a, m), b),
    decreases a.len(),
{
    if a.len() == 0 {
        assert(a + b =~= b);
    } else {
        let rest = a.subrange(1, a.len() as int);
        assert((a + b).subrange(1, (a + b).len() as int) =~= rest + b);
        assert((a + b)[0] == a[0]);
        match step(m, a[0]) {
            Some(next) => {
                lemma_run_append(rest, b, next);
            },
            None => {},
        }
    }
}

proof fn lemma_run_one(i: Instr, m: Machine)
    ensures
        run(seq![i], m) == step(m, i),
{
    let code = seq![i];
    assert(code.subrange(1, 1) =~= Seq::<Instr>::empty());
    match step(m, i) {
        Some(next) => {
            assert(run(code.subrange(1, 1), next) == Some(next));
        },
        None => {},
    }
}

proof fn lemma_unary_code(op: UnOp, m: Machine)
    ensures
        run(unary_code(op), m) matches Some(m2) && m2.eax == unary_value(op, m.eax) && m2.stack
            == m.stack,
{
    match op {
        UnOp::Negate => {
            lemma_run_one(Instr::Neg, m);
        },
        UnOp::Complement => {
            lemma_run_one(Instr::Not, m);
        },
        UnOp::LogicalNegate => {
            let m1 = step(m, Instr::CmpZero)->Some_0;
            let m2 = step(m1, Instr::ClearEax)->Some_0;
            assert(unary_code(op) =~= seq![Instr::CmpZero] + (seq![Instr::ClearEax] + seq![
                Instr::SetEqual,
            ]));
            lemma_run_append(seq![Instr::CmpZero], seq![Instr::ClearEax] + seq![Instr::SetEqual], m);
            lemma_run_one(Instr::CmpZero, m);
            lemma_run_append(seq![Instr::ClearEax], seq![Instr::SetEqual], m1);
            lemma_run_one(Instr::ClearEax, m1);
            lemma_run_one(Instr::SetEqual, m2);
            assert((0i32 & !0xffi32) | 1i32 == 1i32) by (bit_vector);
            assert((0i32 & !0xffi32) | 0i32 == 0i32) by (bit_vector);
        },
    }
}

/// After `cdq`, `edx:eax` holds the value of `eax`.
proof fn lemma_sign_extension(x: i32)
    ensures
        (if x < 0 {
            -1i32
        } else {
            0i32
        }) * 4294967296 + unsigned(x) == x,
{
}

proof fn lemma_binary_code(op: BinOp, m: Machine)
    ensures
        match binary_value(op, m.ecx, m.eax) {
            Some(v) => run(binary_code(op), m) matches Some(m2) && m2.eax == v && m2.stack
                == m.stack,
            None => run(binary_code(op), m) is None,
        },
{
    match op {
        BinOp::Add => {
            lemma_run_one(Instr::AddEcx, m);
            assert(m.eax + m.ecx == m.ecx + m.eax);
        },
        BinOp::Subtract => {
            let m1 = step(m, Instr::SubFromEcx)->Some_0;
            assert(binary_code(op) =~= seq![Instr::SubFromEcx] + seq![Instr::MovEcxToEax]);
            lemma_run_append(seq![Instr::SubFromEcx], seq![Instr::MovEcxToEax], m);
            lemma_run_one(Instr::SubFromEcx, m);
            lemma_run_one(Instr::MovEcxToEax, m1);
        },
        BinOp::Multiply => {
            lemma_run_one(Instr::ImulEcx, m);
            assert(m.eax * m.ecx == m.ecx * m.eax) by (nonlinear_arith);
        },
        BinOp::Divide => {
            let m1 = step(m, Instr::MovEaxToEbx)->Some_0;
            let m2 = step(m1, Instr::MovEcxToEax)->Some_0;
            let m3 = step(m2, Instr::Cdq)->Some_0;
            assert(binary_code(op) =~= seq![Instr::MovEaxToEbx] + (seq![Instr::MovEcxToEax] + (
            seq![Instr::Cdq] + seq![Instr::IdivEbx])));
            lemma_run_append(
                seq![Instr::MovEaxToEbx],
                seq![Instr::MovEcxToEax] + (seq![Instr::Cdq] + seq![Instr::IdivEbx]),
                m,
            );
            lemma_run_one(Instr::MovEaxToEbx, m);
            lemma_run_append(
                seq![Instr::MovEcxToEax],
                seq![Instr::Cdq] + seq![Instr::IdivEbx],
                m1,
            );
            lemma_run_one(Instr::MovEcxToEax, m1);
            lemma_run_append(seq![Instr::Cdq], seq![Instr::IdivEbx], m2);
            lemma_run_one(Instr::Cdq, m2);
            lemma_run_one(Instr::IdivEbx, m3);
            lemma_sign_extension(m.ecx);
        },
    }
}

proof fn lemma_unary_op_code(code: Seq<Instr>, op: UnOp, v: Option<i32>)
    requires
        computes(code, v),
    ensures
        computes(code + unary_code(op), apply_unary(op, v)),
{
    assert forall|m: Machine|
        match apply_unary(op, v) {
            Some(x) => #[trigger] run(code + unary_code(op), m) matches Some(m2) && m2.eax == x
                && m2.stack == m.stack,
            None => run(code + unary_code(op), m) is None,
        } by {
        lemma_run_append(code, unary_code(op), m);
        assert(run(code, m) == run(code, m));
        match run(code, m) {
            Some(m1) => {
                lemma_unary_code(op, m1);
            },
            None => {},
        }
    }
}

proof fn lemma_binary_op_code(a: Seq<Instr>, op: BinOp, b: Seq<Instr>, va: Option<i32>, vb: Option<i32>)
    requires
        computes(a, va),
        computes(b, vb),
    ensures
        computes(binary_op_code(a, op, b), apply_binary(op, va, vb)),
{
    assert forall|m: Machine|
        match apply_binary(op, va, vb) {
            Some(x) => #[trigger] run(binary_op_code(a, op, b), m) matches Some(m2) && m2.eax == x
                && m2.stack == m.stack,
            None => run(binary_op_code(a, op, b), m) is None,
        } by {
        let push = seq![Instr::Push];
        let pop = seq![Instr::Pop];
        let tail = binary_code(op);
        assert(binary_op_code(a, op, b) =~= a + (push + (b + (pop + tail))));
        lemma_run_append(a, push + (b + (pop + tail)), m);
        assert(run(a, m) == run(a, m));
        match run(a, m) {
            Some(m1) => {
                lemma_run_append(push, b + (pop + tail), m1);
                lemma_run_one(Instr::Push, m1);
                let m2 = step(m1, Instr::Push)->Some_0;
                lemma_run_append(b, pop + tail, m2);
                assert(run(b, m2) == run(b, m2));
                match run(b, m2) {
                    Some(m3) => {
                        lemma_run_append(pop, tail, m3);
                        lemma_run_one(Instr::Pop, m3);
                        assert(m3.stack.len() > 0);
                        let m4 = step(m3, Instr::Pop)->Some_0;
                        assert(m2.stack.drop_last() =~= m.stack);
                        lemma_binary_code(op, m4);
                    },
                    None => {},
                }
            },
            None => {},
        }
    }
}

proof fn lemma_factor_code(f: Factor)
    ensures
        computes(factor_code(f), eval_factor(f)),
    decreases f,
{
    match f {
        Factor::IntLiteral(n) => {
            assert forall|m: Machine|
                #[trigger] run(factor_code(f), m) matches Some(m2) && m2.eax == n && m2.stack
                    == m.stack by {
                lemma_run_one(Instr::MovImm(n), m);
            }
        },
        Factor::UnOp(op, g) => {
            lemma_factor_code(*g);
            lemma_unary_op_code(factor_code(*g), op, eval_factor(*g));
        },
        Factor::BinOp(op, a, b) => {
            lemma_factor_code(*a);
            lemma_factor_code(*b);
            lemma_binary_op_code(factor_code(*a), op, factor_code(*b), eval_factor(*a), eval_factor(*b));
        },
        Factor::Expr(e) => {
            lemma_expr_code(*e);
        },
    }
}

proof fn lemma_term_code(t: Term)
    ensures
        computes(term_code(t), eval_term(t)),
    decreases t,
{
    match t {
        Term::Factor(f) => {
            lemma_factor_code(*f);
        },
        Term::BinOp(op, a, b) => {
            lemma_term_code(*a);
            lemma_term_code(*b);
            lemma_binary_op_code(term_code(*a), op, term_code(*b), eval_term(*a), eval_term(*b));
        },
    }
}

/// The code generated for an expression, run from any state of the machine,
/// leaves the expression's value in `%eax` and the stack as it was; where the
/// value is undefined (a division by zero, or `i32::MIN / -1`) the machine
/// faults.
pub proof fn lemma_expr_code(e: Expr)
    ensures
        computes(expr_code(e), eval_expr(e)),
    decreases e,
{
    match e {
        Expr::Term(t) => {
            lemma_term_code(*t);
        },
    }
}

} // verus!
