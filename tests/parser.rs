use rcc::compiler::ast::{BinOp, Expr, Factor, Node, Statement, Term, UnOp};
use rcc::compiler::error::SyntaxError;
use rcc::compiler::lexer::{tokenize, Token};
use rcc::compiler::parser::{parse, parse_expression, parse_function, parse_statement};

fn lit(n: i32) -> Expr {
    Expr::Term(Term::Factor(Factor::IntLiteral(n).into()).into())
}

fn foo_tokens(body: Vec<Token>) -> Vec<Token> {
    let mut tokens = vec![
        Token::IntKw,
        Token::Identifier(String::from("foo")),
        Token::OpenParen,
        Token::CloseParen,
        Token::OpenBrace,
    ];
    tokens.extend(body);
    tokens
}

fn return_expr(source: &str) -> Expr {
    match parse(&tokenize(source).unwrap()).unwrap() {
        Node::Program(f) => match *f {
            Node::Function(_, body) => match *body {
                Node::Statement(Statement::Return, e) => *e,
                other => panic!("not a statement: {:?}", other),
            },
            other => panic!("not a function: {:?}", other),
        },
        other => panic!("not a program: {:?}", other),
    }
}

#[test]
fn int_literal() {
    let tokens = vec![Token::IntLiteral(1)];
    let mut pos = 0;
    assert_eq!(parse_expression(&tokens, &mut pos).unwrap(), lit(1));
}

#[test]
fn parser_unary_operators() {
    let tokens = vec![Token::Tilde, Token::IntLiteral(0)];
    let mut pos = 0;
    assert_eq!(
        parse_expression(&tokens, &mut pos).unwrap(),
        Expr::Term(
            Term::Factor(Factor::UnOp(UnOp::Complement, Factor::IntLiteral(0).into()).into())
                .into()
        )
    )
}

#[test]
fn parser_return_statement() {
    let tokens = vec![Token::ReturnKw, Token::IntLiteral(0), Token::Semicolon];
    let mut pos = 0;
    assert_eq!(
        parse_statement(&tokens, &mut pos).unwrap(),
        Node::Statement(Statement::Return, lit(0).into())
    );
}

#[test]
fn parser_basic_function() {
    let func_name = String::from("foo");
    let tokens = vec![
        Token::IntKw,
        Token::Identifier(func_name.clone()),
        Token::OpenParen,
        Token::CloseParen,
        Token::OpenBrace,
        Token::ReturnKw,
        Token::IntLiteral(0),
        Token::Semicolon,
        Token::CloseBrace,
    ];
    let mut pos = 0;
    assert_eq!(
        parse_function(&tokens, &mut pos).unwrap(),
        Node::Function(
            func_name.clone(),
            Node::Statement(Statement::Return, lit(0).into()).into()
        )
    );
}

#[test]
fn program_function_return_0() {
    let func_name = String::from("foo");
    assert_eq!(
        parse(&vec![
            Token::IntKw,
            Token::Identifier(func_name.clone()),
            Token::OpenParen,
            Token::CloseParen,
            Token::OpenBrace,
            Token::ReturnKw,
            Token::IntLiteral(0),
            Token::Semicolon,
            Token::CloseBrace
        ])
        .unwrap(),
        Node::Program(
            Node::Function(
                func_name.clone(),
                Node::Statement(Statement::Return, lit(0).into()).into()
            )
            .into()
        )
    );
}

#[test]
fn program_function_return_complement_0() {
    let func_name = String::from("foo");
    assert_eq!(
        parse(&vec![
            Token::IntKw,
            Token::Identifier(func_name.clone()),
            Token::OpenParen,
            Token::CloseParen,
            Token::OpenBrace,
            Token::ReturnKw,
            Token::Tilde,
            Token::IntLiteral(0),
            Token::Semicolon,
            Token::CloseBrace
        ])
        .unwrap(),
        Node::Program(
            Node::Function(
                func_name.clone(),
                Node::Statement(
                    Statement::Return,
                    Expr::Term(
                        Term::Factor(
                            Factor::UnOp(UnOp::Complement, Factor::IntLiteral(0).into()).into()
                        )
                        .into()
                    )
                    .into()
                )
                .into()
            )
            .into()
        )
    );
}

#[test]
fn return_unary_on_unary_expr() {
    let func_name = String::from("foo");
    assert_eq!(
        parse(&vec![
            Token::IntKw,
            Token::Identifier(func_name.clone()),
            Token::OpenParen,
            Token::CloseParen,
            Token::OpenBrace,
            Token::ReturnKw,
            Token::Tilde,
            Token::OpenParen,
            Token::Bang,
            Token::IntLiteral(1),
            Token::CloseParen,
            Token::Semicolon,
            Token::CloseBrace
        ])
        .unwrap(),
        Node::Program(
            Node::Function(
                func_name.clone(),
                Node::Statement(
                    Statement::Return,
                    Expr::Term(
                        Term::Factor(
                            Factor::UnOp(
                                UnOp::Complement,
                                Factor::Expr(
                                    Expr::Term(
                                        Term::Factor(
                                            Factor::UnOp(
                                                UnOp::LogicalNegate,
                                                Factor::IntLiteral(1).into()
                                            )
                                            .into()
                                        )
                                        .into()
                                    )
                                    .into()
                                )
                                .into()
                            )
                            .into()
                        )
                        .into()
                    )
                    .into()
                )
                .into()
            )
            .into()
        )
    );
}

#[test]
fn function_missing_closing_brace() {
    assert_eq!(
        parse(&vec![
            Token::IntKw,
            Token::Identifier(String::from("foo")),
            Token::OpenParen,
            Token::CloseParen,
            Token::OpenBrace,
            Token::ReturnKw,
            Token::IntLiteral(0),
            Token::Semicolon
        ])
        .err()
        .unwrap(),
        SyntaxError::MissingCloseBrace
    );
}

#[test]
fn function_missing_closing_paren() {
    assert_eq!(
        parse(&vec![
            Token::IntKw,
            Token::Identifier(String::from("foo")),
            Token::OpenParen,
            Token::OpenBrace,
            Token::ReturnKw,
            Token::IntLiteral(0),
            Token::Semicolon,
            Token::CloseBrace,
        ])
        .err()
        .unwrap(),
        SyntaxError::MissingCloseParen
    );
}

#[test]
fn function_missing_closing_paren_and_brace() {
    assert_eq!(
        parse(&vec![
            Token::IntKw,
            Token::Identifier(String::from("foo")),
            Token::OpenParen,
            Token::OpenBrace,
            Token::ReturnKw,
            Token::IntLiteral(0),
            Token::Semicolon,
        ])
        .err()
        .unwrap(),
        SyntaxError::MissingCloseParen
    );
}

#[test]
fn function_missing_return_value() {
    assert_eq!(
        parse(&vec![
            Token::IntKw,
            Token::Identifier(String::from("foo")),
            Token::OpenParen,
            Token::CloseParen,
            Token::OpenBrace,
            Token::ReturnKw,
            Token::Semicolon,
            Token::CloseBrace,
        ])
        .err()
        .unwrap(),
        SyntaxError::InvalidExpression
    );
}

#[test]
fn function_missing_semicolon() {
    assert_eq!(
        parse(&vec![
            Token::IntKw,
            Token::Identifier(String::from("foo")),
            Token::OpenParen,
            Token::CloseParen,
            Token::OpenBrace,
            Token::ReturnKw,
            Token::IntLiteral(5),
            Token::CloseBrace,
        ])
        .err()
        .unwrap(),
        SyntaxError::MissingSemicolon
    );
}

#[test]
fn multiplication_binds_tighter_than_addition() {
    // 2 + 3 * 4 is 2 + (3 * 4)
    assert_eq!(
        return_expr("int main() { return 2 + 3 * 4; }"),
        Expr::Term(
            Term::BinOp(
                BinOp::Add,
                Term::Factor(Factor::IntLiteral(2).into()).into(),
                Term::Factor(
                    Factor::BinOp(
                        BinOp::Multiply,
                        Factor::IntLiteral(3).into(),
                        Factor::IntLiteral(4).into()
                    )
                    .into()
                )
                .into()
            )
            .into()
        )
    );
}

#[test]
fn subtraction_is_left_associative() {
    // 1 - 2 - 3 is (1 - 2) - 3
    let one = Term::Factor(Factor::IntLiteral(1).into());
    let two = Term::Factor(Factor::IntLiteral(2).into());
    let three = Term::Factor(Factor::IntLiteral(3).into());
    assert_eq!(
        return_expr("int main() { return 1 - 2 - 3; }"),
        Expr::Term(
            Term::BinOp(
                BinOp::Subtract,
                Term::BinOp(BinOp::Subtract, one.into(), two.into()).into(),
                three.into()
            )
            .into()
        )
    );
}

#[test]
fn division_is_left_associative() {
    // 8 / 4 / 2 is (8 / 4) / 2
    assert_eq!(
        return_expr("int main() { return 8 / 4 / 2; }"),
        Expr::Term(
            Term::Factor(
                Factor::BinOp(
                    BinOp::Divide,
                    Factor::BinOp(
                        BinOp::Divide,
                        Factor::IntLiteral(8).into(),
                        Factor::IntLiteral(4).into()
                    )
                    .into(),
                    Factor::IntLiteral(2).into()
                )
                .into()
            )
            .into()
        )
    );
}

#[test]
fn parse_errors_at_each_position() {
    let err = |tokens: Vec<Token>| parse(&tokens).err().unwrap();
    assert_eq!(
        err(vec![Token::ReturnKw]),
        SyntaxError::MissingKeyword(String::from("int"))
    );
    assert_eq!(err(vec![Token::IntKw, Token::OpenParen]), SyntaxError::MissingIdentifier);
    assert_eq!(err(vec![Token::IntKw]), SyntaxError::MissingIdentifier);
    assert_eq!(
        err(vec![Token::IntKw, Token::Identifier(String::from("f")), Token::CloseParen]),
        SyntaxError::MissingOpenParen
    );
    assert_eq!(
        err(vec![
            Token::IntKw,
            Token::Identifier(String::from("f")),
            Token::OpenParen,
            Token::CloseParen,
            Token::ReturnKw
        ]),
        SyntaxError::MissingOpenBrace
    );
    assert_eq!(
        err(foo_tokens(vec![Token::IntLiteral(1), Token::Semicolon, Token::CloseBrace])),
        SyntaxError::UnexpectedToken
    );
    assert_eq!(
        err(foo_tokens(vec![
            Token::ReturnKw,
            Token::OpenParen,
            Token::IntLiteral(1),
            Token::Semicolon
        ])),
        SyntaxError::MissingCloseParen
    );
    assert_eq!(
        err(foo_tokens(vec![
            Token::ReturnKw,
            Token::IntLiteral(1),
            Token::Plus,
            Token::Semicolon
        ])),
        SyntaxError::InvalidExpression
    );
}

#[test]
fn tokens_after_the_function_are_not_read() {
    let mut tokens = foo_tokens(vec![
        Token::ReturnKw,
        Token::IntLiteral(0),
        Token::Semicolon,
        Token::CloseBrace,
    ]);
    tokens.push(Token::Semicolon);
    assert!(parse(&tokens).is_ok());
}
