use rcc::compiler::assembly::generate;
use rcc::compiler::ast::{BinOp, Expr, Factor, Node, Statement, Term, UnOp};

fn program(e: Expr) -> Node {
    Node::Program(
        Node::Function(
            String::from("foo"),
            Node::Statement(Statement::Return, e.into()).into(),
        )
        .into(),
    )
}

fn factor(f: Factor) -> Expr {
    Expr::Term(Term::Factor(f.into()).into())
}

#[test]
fn assembly_basic_function() {
    let ast = program(factor(Factor::IntLiteral(0)));
    assert_eq!(
        generate(&ast).unwrap(),
        ".globl _foo
_foo:
  movl\t$0, %eax
  ret"
    );
}

#[test]
fn function_return_negate_1() {
    let ast = program(factor(Factor::UnOp(UnOp::Negate, Factor::IntLiteral(1).into())));
    assert_eq!(
        generate(&ast).unwrap(),
        ".globl _foo
_foo:
  movl\t$1, %eax
  neg\t%eax
  ret"
    );
}

#[test]
fn function_return_complement_1() {
    let ast = program(factor(Factor::UnOp(UnOp::Complement, Factor::IntLiteral(1).into())));
    assert_eq!(
        generate(&ast).unwrap(),
        ".globl _foo
_foo:
  movl\t$1, %eax
  not\t%eax
  ret"
    );
}

#[test]
fn function_return_logical_negate_1() {
    let ast = program(factor(Factor::UnOp(
        UnOp::LogicalNegate,
        Factor::IntLiteral(1).into(),
    )));
    assert_eq!(
        generate(&ast).unwrap(),
        ".globl _foo
_foo:
  movl\t$1, %eax
  cmpl\t$0, %eax
  movl\t$0, %eax
  sete\t%al
  ret"
    );
}

#[test]
fn binary_operators_save_the_left_operand() {
    let add = program(Expr::Term(
        Term::BinOp(
            BinOp::Add,
            Term::Factor(Factor::IntLiteral(1).into()).into(),
            Term::Factor(Factor::IntLiteral(-2).into()).into(),
        )
        .into(),
    ));
    assert_eq!(
        generate(&add).unwrap(),
        ".globl _foo
_foo:
  movl\t$1, %eax
  push\t%rax
  movl\t$-2, %eax
  pop\t%rcx
  addl\t%ecx, %eax
  ret"
    );
    let sub = program(Expr::Term(
        Term::BinOp(
            BinOp::Subtract,
            Term::Factor(Factor::IntLiteral(5).into()).into(),
            Term::Factor(Factor::IntLiteral(3).into()).into(),
        )
        .into(),
    ));
    assert_eq!(
        generate(&sub).unwrap(),
        ".globl _foo
_foo:
  movl\t$5, %eax
  push\t%rax
  movl\t$3, %eax
  pop\t%rcx
  subl\t%eax, %ecx
  movl\t%ecx, %eax
  ret"
    );
}

#[test]
fn multiply_and_divide() {
    let mul = program(factor(Factor::BinOp(
        BinOp::Multiply,
        Factor::IntLiteral(6).into(),
        Factor::IntLiteral(7).into(),
    )));
    assert_eq!(
        generate(&mul).unwrap(),
        ".globl _foo
_foo:
  movl\t$6, %eax
  push\t%rax
  movl\t$7, %eax
  pop\t%rcx
  imul\t%ecx, %eax
  ret"
    );
    let div = program(factor(Factor::BinOp(
        BinOp::Divide,
        Factor::IntLiteral(8).into(),
        Factor::IntLiteral(2).into(),
    )));
    assert_eq!(
        generate(&div).unwrap(),
        ".globl _foo
_foo:
  movl\t$8, %eax
  push\t%rax
  movl\t$2, %eax
  pop\t%rcx
  movl\t%eax, %ebx
  movl\t%ecx, %eax
  cdq
  idivl\t%ebx
  ret"
    );
}

#[test]
fn malformed_trees_are_refused() {
    let statement = Node::Statement(Statement::Return, factor(Factor::IntLiteral(0)).into());
    assert!(generate(&statement).is_err());
    let bare_function = Node::Function(
        String::from("foo"),
        Node::Statement(Statement::Return, factor(Factor::IntLiteral(0)).into()).into(),
    );
    assert!(generate(&bare_function).is_err());
    let nested = Node::Program(Node::Program(bare_function.into()).into());
    assert!(generate(&nested).is_err());
}
