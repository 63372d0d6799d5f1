use rcc::compiler::error::SyntaxError;
use rcc::compiler::lexer::{tokenize, Token};

fn id(name: &str) -> Token {
    Token::Identifier(String::from(name))
}

#[test]
fn decimal_literals() {
    for i in 0..11 {
        assert_eq!(tokenize(&i.to_string()).unwrap(), vec![Token::IntLiteral(i)]);
    }
}

#[test]
fn decimal_literals_line_breaks() {
    assert_eq!(
        tokenize("1\n2\n3\n").unwrap(),
        vec![Token::IntLiteral(1), Token::IntLiteral(2), Token::IntLiteral(3)]
    );
}

#[test]
fn hex_literals() {
    assert_eq!(tokenize("0x1").unwrap(), vec![Token::IntLiteral(1)]);
    assert_eq!(tokenize("0xa").unwrap(), vec![Token::IntLiteral(10)]);
    assert_eq!(tokenize("0xB").unwrap(), vec![Token::IntLiteral(11)]);
    assert_eq!(tokenize("0xABC").unwrap(), vec![Token::IntLiteral(2748)]);
}

#[test]
fn oct_literals() {
    assert_eq!(tokenize("00").unwrap(), vec![Token::IntLiteral(0)]);
    assert_eq!(tokenize("01").unwrap(), vec![Token::IntLiteral(1)]);
    assert_eq!(tokenize("07").unwrap(), vec![Token::IntLiteral(7)]);
    assert_eq!(tokenize("071").unwrap(), vec![Token::IntLiteral(57)]);
    assert_eq!(tokenize("0777").unwrap(), vec![Token::IntLiteral(511)]);
}

#[test]
fn tab_separated_ints() {
    assert_eq!(
        tokenize("\t1\t2\t3\t").unwrap(),
        vec![Token::IntLiteral(1), Token::IntLiteral(2), Token::IntLiteral(3)]
    );
}

#[test]
fn basic_keywords() {
    assert_eq!(tokenize("int").unwrap(), vec![Token::IntKw]);
    assert_eq!(tokenize("return").unwrap(), vec![Token::ReturnKw]);
}

#[test]
fn tests_unary_operators() {
    assert_eq!(tokenize("-").unwrap(), vec![Token::Minus]);
    assert_eq!(tokenize("~").unwrap(), vec![Token::Tilde]);
    assert_eq!(tokenize("!").unwrap(), vec![Token::Bang]);
}

#[test]
fn binary_operators() {
    assert_eq!(tokenize("+").unwrap(), vec![Token::Plus]);
    assert_eq!(tokenize("/").unwrap(), vec![Token::Slash]);
    assert_eq!(tokenize("*").unwrap(), vec![Token::Asterisk]);
    assert_eq!(tokenize("&&").unwrap(), vec![Token::DoubleAmpersand]);
    assert_eq!(tokenize("||").unwrap(), vec![Token::DoubleBar]);
    assert_eq!(tokenize("==").unwrap(), vec![Token::DoubleEqual]);
    assert_eq!(tokenize("!=").unwrap(), vec![Token::BangEqual]);
    assert_eq!(tokenize("<").unwrap(), vec![Token::LessThan]);
    assert_eq!(tokenize("<=").unwrap(), vec![Token::LessThanEqual]);
    assert_eq!(tokenize(">").unwrap(), vec![Token::GreaterThan]);
    assert_eq!(tokenize(">=").unwrap(), vec![Token::GreaterThanEqual]);
}

#[test]
fn tests_return_statement() {
    assert_eq!(
        tokenize("return 0;").unwrap(),
        vec![Token::ReturnKw, Token::IntLiteral(0), Token::Semicolon]
    );
}

#[test]
fn empty_function_one_line() {
    assert_eq!(
        tokenize("int foo() {}").unwrap(),
        vec![
            Token::IntKw,
            id("foo"),
            Token::OpenParen,
            Token::CloseParen,
            Token::OpenBrace,
            Token::CloseBrace
        ]
    );
}

#[test]
fn empty_function() {
    assert_eq!(
        tokenize("int foo() {\n}").unwrap(),
        vec![
            Token::IntKw,
            id("foo"),
            Token::OpenParen,
            Token::CloseParen,
            Token::OpenBrace,
            Token::CloseBrace
        ]
    );
}

#[test]
fn function_return_0() {
    assert_eq!(
        tokenize("int foo() {\n\treturn 0;\n}").unwrap(),
        vec![
            Token::IntKw,
            id("foo"),
            Token::OpenParen,
            Token::CloseParen,
            Token::OpenBrace,
            Token::ReturnKw,
            Token::IntLiteral(0),
            Token::Semicolon,
            Token::CloseBrace
        ]
    )
}

#[test]
fn syntax_error_with_invalid_identifier() {
    assert_eq!(
        tokenize("int $foo() {}").err().unwrap(),
        SyntaxError::InvalidIdentifier(String::from("$foo"))
    );
}

#[test]
fn empty_input_has_no_tokens() {
    assert_eq!(tokenize("").unwrap(), Vec::<Token>::new());
    assert_eq!(tokenize(" \n\t ").unwrap(), Vec::<Token>::new());
}

#[test]
fn decimal_run_is_one_literal() {
    assert_eq!(tokenize("2147483647").unwrap(), vec![Token::IntLiteral(2147483647)]);
    assert_eq!(tokenize("123").unwrap(), vec![Token::IntLiteral(123)]);
    assert_eq!(tokenize("09").unwrap(), vec![Token::IntLiteral(9)]);
}

#[test]
fn literal_out_of_range() {
    assert_eq!(
        tokenize("2147483648").err().unwrap(),
        SyntaxError::InvalidIntLiteral(String::from("2147483648"))
    );
    assert_eq!(
        tokenize("return 0x80000000;").err().unwrap(),
        SyntaxError::InvalidIntLiteral(String::from("0x80000000"))
    );
    assert_eq!(tokenize("0x7fffffff").unwrap(), vec![Token::IntLiteral(2147483647)]);
    assert_eq!(tokenize("017777777777").unwrap(), vec![Token::IntLiteral(2147483647)]);
}

#[test]
fn hex_prefix_either_case() {
    assert_eq!(tokenize("0X1f").unwrap(), vec![Token::IntLiteral(31)]);
    assert_eq!(tokenize("0x").unwrap(), vec![Token::IntLiteral(0), id("x")]);
}

#[test]
fn literal_ends_where_its_digits_end() {
    assert_eq!(tokenize("0778").unwrap(), vec![Token::IntLiteral(63), Token::IntLiteral(8)]);
    assert_eq!(tokenize("12ab").unwrap(), vec![Token::IntLiteral(12), id("ab")]);
}

#[test]
fn longest_symbol_wins() {
    assert_eq!(
        tokenize("<=<!=!").unwrap(),
        vec![Token::LessThanEqual, Token::LessThan, Token::BangEqual, Token::Bang]
    );
}

#[test]
fn identifiers_and_keywords() {
    assert_eq!(tokenize("integer").unwrap(), vec![id("integer")]);
    assert_eq!(tokenize("return0").unwrap(), vec![id("return0")]);
    assert_eq!(tokenize("a_b9").unwrap(), vec![id("a_b9")]);
    assert_eq!(tokenize("caf\u{e9}").unwrap(), vec![id("caf\u{e9}")]);
}

#[test]
fn invalid_identifier_stops_at_brackets_and_space() {
    assert_eq!(
        tokenize("@+1(").err().unwrap(),
        SyntaxError::InvalidIdentifier(String::from("@+1"))
    );
    assert_eq!(
        tokenize("a = b").err().unwrap(),
        SyntaxError::InvalidIdentifier(String::from("="))
    );
    assert_eq!(
        tokenize("_x y").err().unwrap(),
        SyntaxError::InvalidIdentifier(String::from("_x"))
    );
}

#[test]
fn non_ascii_whitespace_is_skipped() {
    assert_eq!(
        tokenize("1\u{a0}2\u{3000}3").unwrap(),
        vec![Token::IntLiteral(1), Token::IntLiteral(2), Token::IntLiteral(3)]
    );
}
