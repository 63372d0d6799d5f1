use vstd::prelude::*;

verus! {

/// The ways in which source text can fail to be a program of the subset.
#[derive(Debug, PartialEq, Eq, Clone)]
pub enum SyntaxError {
    Unknown,
    MissingOpenParen,
    MissingCloseParen,
    MissingOpenBrace,
    MissingCloseBrace,
    MissingSemicolon,
    MissingIdentifier,
    MissingKeyword(String),
    InvalidIdentifier(String),
    /// A numeric literal whose value does not fit in a 32-bit signed integer.
    InvalidIntLiteral(String),
    InvalidExpression,
    UnexpectedToken,
}

/// A syntax error with its text as characters.
pub enum ErrorModel {
    Unknown,
    MissingOpenParen,
    MissingCloseParen,
    MissingOpenBrace,
    MissingCloseBrace,
    MissingSemicolon,
    MissingIdentifier,
    MissingKeyword(Seq<char>),
    InvalidIdentifier(Seq<char>),
    InvalidIntLiteral(Seq<char>),
    InvalidExpression,
    UnexpectedToken,
}

impl View for SyntaxError {
    type V = ErrorModel;

    open spec fn view(&self) -> ErrorModel {
        match self {
            SyntaxError::Unknown => ErrorModel::Unknown,
            SyntaxError::MissingOpenParen => ErrorModel::MissingOpenParen,
            SyntaxError::MissingCloseParen => ErrorModel::MissingCloseParen,
            SyntaxError::MissingOpenBrace => ErrorModel::MissingOpenBrace,
            SyntaxError::MissingCloseBrace => ErrorModel::MissingCloseBrace,
            SyntaxError::MissingSemicolon => ErrorModel::MissingSemicolon,
            SyntaxError::MissingIdentifier => ErrorModel::MissingIdentifier,
            SyntaxError::MissingKeyword(k) => ErrorModel::MissingKeyword(k@),
            SyntaxError::InvalidIdentifier(id) => ErrorModel::InvalidIdentifier(id@),
            SyntaxError::InvalidIntLiteral(lit) => ErrorModel::InvalidIntLiteral(lit@),
            SyntaxError::InvalidExpression => ErrorModel::InvalidExpression,
            SyntaxError::UnexpectedToken => ErrorModel::UnexpectedToken,
        }
    }
}

/// The human-readable message for an error.
pub open spec fn error_message(e: ErrorModel) -> Seq<char> {
    match e {
        ErrorModel::InvalidIdentifier(id) => "Syntax Error: Invalid identifier: "@ + id,
        ErrorModel::InvalidIntLiteral(lit) => "Syntax Error: Integer literal out of range: "@ + lit,
        ErrorModel::MissingKeyword(kw) => "Syntax Error: Expected \""@ + kw + "\" keyword"@,
        ErrorModel::MissingOpenParen => "Syntax Error: Expected opening parenthesis"@,
        ErrorModel::MissingCloseParen => "Syntax Error: Expected closing parenthesis"@,
        ErrorModel::MissingOpenBrace => "Syntax Error: Expected opening brace"@,
        ErrorModel::MissingCloseBrace => "Syntax Error: Expected closing brace"@,
        ErrorModel::MissingSemicolon => "Syntax Error: Expected semicolon"@,
        ErrorModel::MissingIdentifier => "Syntax Error: Expected identifier"@,
        ErrorModel::InvalidExpression => "Syntax Error: Invalid expression"@,
        ErrorModel::UnexpectedToken => "Syntax Error: Unexpected token"@,
        ErrorModel::Unknown => "Syntax Error: Unknown error"@,
    }
}

impl SyntaxError {
    /// The human-readable message for this error.
    pub fn message(&self) -> (r: String)
        ensures
            r@ == error_message(self@),
    {
        match self {
            SyntaxError::InvalidIdentifier(id) => {
                let mut m = String::from_str("Syntax Error: Invalid identifier: ");
                m.append(id.as_str());
                m
            },
            SyntaxError::InvalidIntLiteral(lit) => {
                let mut m = String::from_str("Syntax Error: Integer literal out of range: ");
                m.append(lit.as_str());
                m
            },
            SyntaxError::MissingKeyword(kw) => {
                let mut m = String::from_str("Syntax Error: Expected \"");
                m.append(kw.as_str());
                m.append("\" keyword");
                m
            },
            SyntaxError::MissingOpenParen => String::from_str(
                "Syntax Error: Expected opening parenthesis",
            ),
            SyntaxError::MissingCloseParen => String::from_str(
                "Syntax Error: Expected closing parenthesis",
            ),
            SyntaxError::MissingOpenBrace => String::from_str("Syntax Error: Expected opening brace"),
            SyntaxError::MissingCloseBrace => String::from_str("Syntax Error: Expected closing brace"),
            SyntaxError::MissingSemicolon => String::from_str("Syntax Error: Expected semicolon"),
            SyntaxError::MissingIdentifier => String::from_str("Syntax Error: Expected identifier"),
            SyntaxError::InvalidExpression => String::from_str("Syntax Error: Invalid expression"),
            SyntaxError::UnexpectedToken => String::from_str("Syntax Error: Unexpected token"),
            SyntaxError::Unknown => String::from_str("Syntax Error: Unknown error"),
        }
    }
}

} // verus!
