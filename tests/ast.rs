use rcc::compiler::ast::{BinOp, Expr, Factor, Node, Statement, Term, UnOp};

#[test]
fn display_int_literal() {
    assert_eq!(Factor::IntLiteral(1).to_string(), "Int<1>");
}

#[test]
fn display_unary_operators() {
    assert_eq!(UnOp::Negate.to_string(), "-");
    assert_eq!(UnOp::Complement.to_string(), "~");
    assert_eq!(UnOp::LogicalNegate.to_string(), "!");
}

#[test]
fn display_unary_factors() {
    assert_eq!(
        Factor::UnOp(UnOp::Negate, Factor::IntLiteral(5).into()).to_string(),
        "-Int<5>"
    );
    assert_eq!(
        Factor::UnOp(UnOp::Complement, Factor::IntLiteral(0).into()).to_string(),
        "~Int<0>"
    );
    assert_eq!(
        Factor::UnOp(UnOp::LogicalNegate, Factor::IntLiteral(16).into()).to_string(),
        "!Int<16>"
    );
}

#[test]
fn display_high_precedence_binary_exprs() {
    assert_eq!(
        Expr::Term(
            Term::BinOp(
                BinOp::Add,
                Term::Factor(Factor::IntLiteral(1).into()).into(),
                Term::Factor(Factor::IntLiteral(2).into()).into()
            )
            .into()
        )
        .to_string(),
        "Int<1> + Int<2>"
    );
    assert_eq!(
        Expr::Term(
            Term::BinOp(
                BinOp::Subtract,
                Term::Factor(Factor::IntLiteral(1).into()).into(),
                Term::Factor(Factor::IntLiteral(2).into()).into()
            )
            .into()
        )
        .to_string(),
        "Int<1> - Int<2>"
    );
}

#[test]
fn display_low_precedence_binary_exprs() {
    assert_eq!(
        Expr::Term(
            Term::Factor(
                Factor::BinOp(
                    BinOp::Multiply,
                    Factor::IntLiteral(1).into(),
                    Factor::IntLiteral(2).into()
                )
                .into()
            )
            .into()
        )
        .to_string(),
        "Int<1> * Int<2>"
    );
    assert_eq!(
        Expr::Term(
            Term::Factor(
                Factor::BinOp(
                    BinOp::Divide,
                    Factor::IntLiteral(1).into(),
                    Factor::IntLiteral(2).into()
                )
                .into()
            )
            .into()
        )
        .to_string(),
        "Int<1> / Int<2>"
    );
}

#[test]
fn display_return_statement() {
    assert_eq!(
        Node::Statement(
            Statement::Return,
            Expr::Term(Term::Factor(Factor::IntLiteral(0).into()).into()).into()
        )
        .to_string(),
        "RETURN Int<0>"
    );
}

#[test]
fn display_function() {
    assert_eq!(
        Node::Function(
            String::from("foo"),
            Node::Statement(
                Statement::Return,
                Expr::Term(Term::Factor(Factor::IntLiteral(10).into()).into()).into()
            )
            .into()
        )
        .to_string(),
        "FUN INT foo:
    params: ()
    body:
        RETURN Int<10>"
    );
}

#[test]
fn display_program() {
    assert_eq!(
        Node::Program(
            Node::Function(
                String::from("foo"),
                Node::Statement(
                    Statement::Return,
                    Expr::Term(Term::Factor(Factor::IntLiteral(10).into()).into()).into()
                )
                .into()
            )
            .into()
        )
        .to_string(),
        "FUN INT foo:
    params: ()
    body:
        RETURN Int<10>"
    );
}

#[test]
fn display_negative_literal_and_nesting() {
    assert_eq!(Factor::IntLiteral(-2147483648).to_string(), "Int<-2147483648>");
    assert_eq!(
        Factor::UnOp(
            UnOp::Negate,
            Factor::Expr(Expr::Term(Term::Factor(Factor::IntLiteral(7).into()).into()).into())
                .into()
        )
        .to_string(),
        "-Int<7>"
    );
}
