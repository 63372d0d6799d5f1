use vstd::prelude::*;

use super::ast::{BinOp, Expr, Factor, Node, NodeModel, Statement, Term, UnOp};
use super::error::{ErrorModel, SyntaxError};
use super::lexer::{tokens_model, Token, TokenModel};

verus! {

// ---------------------------------------------------------------------------
// The grammar, as functions from a token position to a tree and the position
// after it
// ---------------------------------------------------------------------------

pub open spec fn token_at(ts: Seq<TokenModel>, p: int) -> Option<TokenModel> {
    if 0 <= p < ts.len() {
        Some(ts[p])
    } else {
        None
    }
}

pub open spec fn unop_of(t: TokenModel) -> Option<UnOp> {
    match t {
        TokenModel::Bang => Some(UnOp::LogicalNegate),
        TokenModel::Minus => Some(UnOp::Negate),
        TokenModel::Tilde => Some(UnOp::Complement),
        _ => None,
    }
}

pub open spec fn binop_of(t: TokenModel) -> Option<BinOp> {
    match t {
        TokenModel::Plus => Some(BinOp::Add),
        TokenModel::Minus => Some(BinOp::Subtract),
        TokenModel::Asterisk => Some(BinOp::Multiply),
        TokenModel::Slash => Some(BinOp::Divide),
        _ => None,
    }
}

/// The operator of the term tier (`*`, `/`) that `t` stands for, if any.
pub open spec fn term_op(t: Option<TokenModel>) -> Option<BinOp> {
    match t {
        Some(TokenModel::Asterisk) => Some(BinOp::Multiply),
        Some(TokenModel::Slash) => Some(BinOp::Divide),
        _ => None,
    }
}

/// The operator of the expression tier (`+`, `-`) that `t` stands for, if any.
pub open spec fn expr_op(t: Option<TokenModel>) -> Option<BinOp> {
    match t {
        Some(TokenModel::Plus) => Some(BinOp::Add),
        Some(TokenModel::Minus) => Some(BinOp::Subtract),
        _ => None,
    }
}

// Each parse below consumes at least one token when it succeeds
// (`lemma_expr_result` and its companions prove it); the checks
// `p < q <= ts.len()` on the position after a sub-parse therefore always hold,
// and they make the recursion well-founded.
/// `Factor := IntLiteral | ("!"|"-"|"~") Factor | "(" Expr ")"`
pub open spec fn parse_factor_at(ts: Seq<TokenModel>, p: int) -> Result<(Factor, int), ErrorModel>
    decreases ts.len() - p, 0nat,
{
    if p < 0 || p >= ts.len() {
        Err(ErrorModel::InvalidExpression)
    } else {
        match ts[p] {
            TokenModel::IntLiteral(n) => Ok((Factor::IntLiteral(n), p + 1)),
            TokenModel::OpenParen => match parse_expr_at(ts, p + 1) {
                Ok((e, q)) => if token_at(ts, q) == Some(TokenModel::CloseParen) {
                    Ok((Factor::Expr(Box::new(e)), q + 1))
                } else {
                    Err(ErrorModel::MissingCloseParen)
                },
                Err(e) => Err(e),
            },
            t => match unop_of(t) {
                Some(op) => match parse_factor_at(ts, p + 1) {
                    Ok((f, q)) => Ok((Factor::UnOp(op, Box::new(f)), q)),
                    Err(e) => Err(e),
                },
                None => Err(ErrorModel::InvalidExpression),
            },
        }
    }
}

/// The rest of a term after `acc`, folded to the left: `(("*"|"/") Factor)*`.
pub open spec fn parse_term_tail(ts: Seq<TokenModel>, p: int, acc: Factor) -> Result<
    (Factor, int),
    ErrorModel,
>
    decreases ts.len() - p, 1nat,
{
    match term_op(token_at(ts, p)) {
        Some(op) => match parse_factor_at(ts, p + 1) {
            Ok((f, q)) => if p < q <= ts.len() {
                parse_term_tail(ts, q, Factor::BinOp(op, Box::new(acc), Box::new(f)))
            } else {
                Err(ErrorModel::Unknown)
            },
            Err(e) => Err(e),
        },
        None => Ok((acc, p)),
    }
}

/// `Term := Factor (("*"|"/") Factor)*`
pub open spec fn parse_term_at(ts: Seq<TokenModel>, p: int) -> Result<(Term, int), ErrorModel>
    decreases ts.len() - p, 2nat,
{
    match parse_factor_at(ts, p) {
        Ok((f, q)) => if p < q <= ts.len() {
            match parse_term_tail(ts, q, f) {
                Ok((g, r)) => Ok((Term::Factor(Box::new(g)), r)),
                Err(e) => Err(e),
            }
        } else {
            Err(ErrorModel::Unknown)
        },
        Err(e) => Err(e),
    }
}

/// The rest of an expression after `acc`, folded to the left:
/// `(("+"|"-") Term)*`.
pub open spec fn parse_expr_tail(ts: Seq<TokenModel>, p: int, acc: Term) -> Result<
    (Term, int),
    ErrorModel,
>
    decreases ts.len() - p, 3nat,
{
    match expr_op(token_at(ts, p)) {
        Some(op) => match parse_term_at(ts, p + 1) {
            Ok((t, q)) => if p < q <= ts.len() {
                parse_expr_tail(ts, q, Term::BinOp(op, Box::new(acc), Box::new(t)))
            } else {
                Err(ErrorModel::Unknown)
            },
            Err(e) => Err(e),
        },
        None => Ok((acc, p)),
    }
}

/// `Expr := Term (("+"|"-") Term)*`
pub open spec fn parse_expr_at(ts: Seq<TokenModel>, p: int) -> Result<(Expr, int), ErrorModel>
    decreases ts.len() - p, 4nat,
{
    match parse_term_at(ts, p) {
        Ok((t, q)) => if p < q <= ts.len() {
            match parse_expr_tail(ts, q, t) {
                Ok((u, r)) => Ok((Expr::Term(Box::new(u)), r)),
                Err(e) => Err(e),
            }
        } else {
            Err(ErrorModel::Unknown)
        },
        Err(e) => Err(e),
    }
}

/// `Statement := "return" Expr ";"`
pub open spec fn parse_statement_at(ts: Seq<TokenModel>, p: int) -> Result<
    (NodeModel, int),
    ErrorModel,
> {
    if token_at(ts, p) == Some(TokenModel::ReturnKw) {
        match parse_expr_at(ts, p + 1) {
            Ok((e, q)) => if token_at(ts, q) == Some(TokenModel::Semicolon) {
                Ok((NodeModel::Statement(Statement::Return, e), q + 1))
            } else {
                Err(ErrorModel::MissingSemicolon)
            },
            Err(e) => Err(e),
        }
    } else {
        Err(ErrorModel::UnexpectedToken)
    }
}

/// The characters of the keyword `int`.
pub open spec fn int_keyword() -> Seq<char> {
    seq!['i', 'n', 't']
}

/// `Function := "int" Identifier "(" ")" "{" Statement "}"`
pub open spec fn parse_function_at(ts: Seq<TokenModel>, p: int) -> Result<
    (NodeModel, int),
    ErrorModel,
> {
    if token_at(ts, p) != Some(TokenModel::IntKw) {
        Err(ErrorModel::MissingKeyword(int_keyword()))
    } else if !(token_at(ts, p + 1) matches Some(TokenModel::Identifier(_))) {
        Err(ErrorModel::MissingIdentifier)
    } else if token_at(ts, p + 2) != Some(TokenModel::OpenParen) {
        Err(ErrorModel::MissingOpenParen)
    } else if token_at(ts, p + 3) != Some(TokenModel::CloseParen) {
        Err(ErrorModel::MissingCloseParen)
    } else if token_at(ts, p + 4) != Some(TokenModel::OpenBrace) {
        Err(ErrorModel::MissingOpenBrace)
    } else {
        match parse_statement_at(ts, p + 5) {
            Ok((s, q)) => if token_at(ts, q) == Some(TokenModel::CloseBrace) {
                Ok((NodeModel::Function(ts[p + 1]->Identifier_0, Box::new(s)), q + 1))
            } else {
                Err(ErrorModel::MissingCloseBrace)
            },
            Err(e) => Err(e),
        }
    }
}

/// `Program := Function`; tokens after the function are not read.
pub open spec fn parse_program(ts: Seq<TokenModel>) -> Result<NodeModel, ErrorModel> {
    match parse_function_at(ts, 0) {
        Ok((f, _)) => Ok(NodeModel::Program(Box::new(f))),
        Err(e) => Err(e),
    }
}

// ---------------------------------------------------------------------------
// The recursive-descent parser
// ---------------------------------------------------------------------------

/// The term of a term-tier result, wrapped as a `Term`.
pub open spec fn as_term(r: Result<(Factor, int), ErrorModel>) -> Result<(Term, int), ErrorModel> {
    match r {
        Ok((f, q)) => Ok((Term::Factor(Box::new(f)), q)),
        Err(e) => Err(e),
    }
}

/// The term of an expression-tier result, wrapped as an `Expr`.
pub open spec fn as_expr(r: Result<(Term, int), ErrorModel>) -> Result<(Expr, int), ErrorModel> {
    match r {
        Ok((t, q)) => Ok((Expr::Term(Box::new(t)), q)),
        Err(e) => Err(e),
    }
}

fn token_to_unop(t: &Token) -> (r: Option<UnOp>)
    ensures
        r == unop_of(t@),
{
    match t {
        Token::Bang => Some(UnOp::LogicalNegate),
        Token::Minus => Some(UnOp::Negate),
        Token::Tilde => Some(UnOp::Complement),
        _ => None,
    }
}

fn token_to_binop(t: &Token) -> (r: Option<BinOp>)
    ensures
        r == binop_of(t@),
{
    match t {
        Token::Plus => Some(BinOp::Add),
        Token::Minus => Some(BinOp::Subtract),
        Token::Asterisk => Some(BinOp::Multiply),
        Token::Slash => Some(BinOp::Divide),
        _ => None,
    }
}

/// Parses a factor at `*pos` and moves `*pos` past it.
pub fn parse_factor(tokens: &Vec<Token>, pos: &mut usize) -> (r: Result<Factor, SyntaxError>)
    requires
        *old(pos) <= tokens.len(),
    ensures
        match r {
            Ok(f) => parse_factor_at(tokens_model(tokens@), *old(pos) as int) == Ok::<
                _,
                ErrorModel,
            >((f, *final(pos) as int)) && *old(pos) < *final(pos) <= tokens.len(),
            Err(e) => parse_factor_at(tokens_model(tokens@), *old(pos) as int) == Err::<
                (Factor, int),
                _,
            >(e@),
        },
    decreases tokens.len() - *old(pos), 0nat,
{
    let ghost ts = tokens_model(tokens@);
    if *pos >= tokens.len() {
        return Err(SyntaxError::InvalidExpression);
    }
    let p = *pos;
    assert(ts[p as int] == tokens@[p as int]@);
    match &tokens[p] {
        Token::IntLiteral(n) => {
            *pos = p + 1;
            Ok(Factor::IntLiteral(*n))
        },
        Token::OpenParen => {
            *pos = p + 1;
            let e = match parse_expression(tokens, pos) {
                Ok(e) => e,
                Err(err) => {
                    return Err(err);
                },
            };
            if *pos < tokens.len() {
                assert(ts[*pos as int] == tokens@[*pos as int]@);
                match &tokens[*pos] {
                    Token::CloseParen => {
                        *pos = *pos + 1;
                        return Ok(Factor::Expr(Box::new(e)));
                    },
                    _ => {},
                }
            }
            Err(SyntaxError::MissingCloseParen)
        },
        t => match token_to_unop(t) {
            Some(op) => {
                *pos = p + 1;
                match parse_factor(tokens, pos) {
                    Ok(f) => Ok(Factor::UnOp(op, Box::new(f))),
                    Err(e) => Err(e),
                }
            },
            None => Err(SyntaxError::InvalidExpression),
        },
    }
}

/// Parses a term at `*pos` and moves `*pos` past it. The factors of a chain of
/// `*` and `/` are folded to the left.
pub fn parse_term(tokens: &Vec<Token>, pos: &mut usize) -> (r: Result<Term, SyntaxError>)
    requires
        *old(pos) <= tokens.len(),
    ensures
        match r {
            Ok(t) => parse_term_at(tokens_model(tokens@), *old(pos) as int) == Ok::<
                _,
                ErrorModel,
            >((t, *final(pos) as int)) && *old(pos) < *final(pos) <= tokens.len(),
            Err(e) => parse_term_at(tokens_model(tokens@), *old(pos) as int) == Err::<
                (Term, int),
                _,
            >(e@),
        },
    decreases tokens.len() - *old(pos), 2nat,
{
    let ghost ts = tokens_model(tokens@);
    let ghost start = *pos as int;
    let mut factor = match parse_factor(tokens, pos) {
        Ok(f) => f,
        Err(e) => {
            return Err(e);
        },
    };
    loop
        invariant
            ts == tokens_model(tokens@),
            start == *old(pos),
            start < *pos <= tokens.len(),
            parse_term_at(ts, start) == as_term(parse_term_tail(ts, *pos as int, factor)),
        ensures
            start < *pos <= tokens.len(),
            parse_term_at(ts, start) == as_term(Ok((factor, *pos as int))),
        decreases tokens.len() - *pos,
    {
        if *pos >= tokens.len() {
            break;
        }
        assert(ts[*pos as int] == tokens@[*pos as int]@);
        let op = match token_to_binop(&tokens[*pos]) {
            Some(op) => match op {
                BinOp::Multiply | BinOp::Divide => op,
                _ => {
                    break;
                },
            },
            None => {
                break;
            },
        };
        *pos = *pos + 1;
        let next = match parse_factor(tokens, pos) {
            Ok(f) => f,
            Err(e) => {
                return Err(e);
            },
        };
        factor = Factor::BinOp(op, Box::new(factor), Box::new(next));
    }
    Ok(Term::Factor(Box::new(factor)))
}

/// Parses an expression at `*pos` and moves `*pos` past it. The terms of a
/// chain of `+` and `-` are folded to the left.
pub fn parse_expression(tokens: &Vec<Token>, pos: &mut usize) -> (r: Result<Expr, SyntaxError>)
    requires
        *old(pos) <= tokens.len(),
    ensures
        match r {
            Ok(e) => parse_expr_at(tokens_model(tokens@), *old(pos) as int) == Ok::<
                _,
                ErrorModel,
            >((e, *final(pos) as int)) && *old(pos) < *final(pos) <= tokens.len(),
            Err(e) => parse_expr_at(tokens_model(tokens@), *old(pos) as int) == Err::<
                (Expr, int),
                _,
            >(e@),
        },
    decreases tokens.len() - *old(pos), 4nat,
{
    let ghost ts = tokens_model(tokens@);
    let ghost start = *pos as int;
    let mut term = match parse_term(tokens, pos) {
        Ok(t) => t,
        Err(e) => {
            return Err(e);
        },
    };
    loop
        invariant
            ts == tokens_model(tokens@),
            start == *old(pos),
            start < *pos <= tokens.len(),
            parse_expr_at(ts, start) == as_expr(parse_expr_tail(ts, *pos as int, term)),
        ensures
            start < *pos <= tokens.len(),
            parse_expr_at(ts, start) == as_expr(Ok((term, *pos as int))),
        decreases tokens.len() - *pos,
    {
        if *pos >= tokens.len() {
            break;
        }
        assert(ts[*pos as int] == tokens@[*pos as int]@);
        let op = match token_to_binop(&tokens[*pos]) {
            Some(op) => match op {
                BinOp::Add | BinOp::Subtract => op,
                _ => {
                    break;
                },
            },
            None => {
                break;
            },
        };
        *pos = *pos + 1;
        let next = match parse_term(tokens, pos) {
            Ok(t) => t,
            Err(e) => {
                return Err(e);
            },
        };
        term = Term::BinOp(op, Box::new(term), Box::new(next));
    }
    Ok(Expr::Term(Box::new(term)))
}

/// Whether the token at `pos` is `expected`, which has no payload.
fn token_is(tokens: &Vec<Token>, pos: usize, expected: Token) -> (r: bool)
    requires
        !(expected is Identifier),
        !(expected is IntLiteral),
    ensures
        r == (token_at(tokens_model(tokens@), pos as int) == Some(expected@)),
{
    if pos >= tokens.len() {
        return false;
    }
    assert(tokens_model(tokens@)[pos as int] == tokens@[pos as int]@);
    match (&tokens[pos], expected) {
        (Token::OpenBrace, Token::OpenBrace) => true,
        (Token::CloseBrace, Token::CloseBrace) => true,
        (Token::OpenParen, Token::OpenParen) => true,
        (Token::CloseParen, Token::CloseParen) => true,
        (Token::Semicolon, Token::Semicolon) => true,
        (Token::Minus, Token::Minus) => true,
        (Token::Tilde, Token::Tilde) => true,
        (Token::Bang, Token::Bang) => true,
        (Token::Plus, Token::Plus) => true,
        (Token::Slash, Token::Slash) => true,
        (Token::Asterisk, Token::Asterisk) => true,
        (Token::DoubleAmpersand, Token::DoubleAmpersand) => true,
        (Token::DoubleBar, Token::DoubleBar) => true,
        (Token::DoubleEqual, Token::DoubleEqual) => true,
        (Token::BangEqual, Token::BangEqual) => true,
        (Token::LessThan, Token::LessThan) => true,
        (Token::GreaterThan, Token::GreaterThan) => true,
        (Token::LessThanEqual, Token::LessThanEqual) => true,
        (Token::GreaterThanEqual, Token::GreaterThanEqual) => true,
        (Token::IntKw, Token::IntKw) => true,
        (Token::ReturnKw, Token::ReturnKw) => true,
        _ => false,
    }
}

/// Parses a `return` statement at `*pos` and moves `*pos` past it.
pub fn parse_statement(tokens: &Vec<Token>, pos: &mut usize) -> (r: Result<Node, SyntaxError>)
    requires
        *old(pos) <= tokens.len(),
    ensures
        match r {
            Ok(n) => parse_statement_at(tokens_model(tokens@), *old(pos) as int) == Ok::<
                _,
                ErrorModel,
            >((n@, *final(pos) as int)) && *final(pos) <= tokens.len(),
            Err(e) => parse_statement_at(tokens_model(tokens@), *old(pos) as int) == Err::<
                (NodeModel, int),
                _,
            >(e@),
        },
{
    if !token_is(tokens, *pos, Token::ReturnKw) {
        return Err(SyntaxError::UnexpectedToken);
    }
    *pos = *pos + 1;
    let expr = match parse_expression(tokens, pos) {
        Ok(e) => e,
        Err(e) => {
            return Err(e);
        },
    };
    if !token_is(tokens, *pos, Token::Semicolon) {
        return Err(SyntaxError::MissingSemicolon);
    }
    *pos = *pos + 1;
    Ok(Node::Statement(Statement::Return, Box::new(expr)))
}

/// Parses a function definition at `*pos` and moves `*pos` past it.
pub fn parse_function(tokens: &Vec<Token>, pos: &mut usize) -> (r: Result<Node, SyntaxError>)
    requires
        *old(pos) <= tokens.len(),
    ensures
        match r {
            Ok(n) => parse_function_at(tokens_model(tokens@), *old(pos) as int) == Ok::<
                _,
                ErrorModel,
            >((n@, *final(pos) as int)) && *final(pos) <= tokens.len(),
            Err(e) => parse_function_at(tokens_model(tokens@), *old(pos) as int) == Err::<
                (NodeModel, int),
                _,
            >(e@),
        },
{
    let ghost ts = tokens_model(tokens@);
    let p = *pos;
    if !token_is(tokens, p, Token::IntKw) {
        proof {
            reveal_strlit("int");
            assert("int"@ =~= int_keyword());
        }
        return Err(SyntaxError::MissingKeyword(String::from_str("int")));
    }
    if tokens.len() - p < 2 {
        return Err(SyntaxError::MissingIdentifier);
    }
    assert(ts[p + 1] == tokens@[p + 1]@);
    let name = match &tokens[p + 1] {
        Token::Identifier(id) => id.clone(),
        _ => {
            return Err(SyntaxError::MissingIdentifier);
        },
    };
    if !token_is(tokens, p + 2, Token::OpenParen) {
        return Err(SyntaxError::MissingOpenParen);
    }
    if !token_is(tokens, p + 3, Token::CloseParen) {
        return Err(SyntaxError::MissingCloseParen);
    }
    if !token_is(tokens, p + 4, Token::OpenBrace) {
        return Err(SyntaxError::MissingOpenBrace);
    }
    *pos = p + 5;
    let body = match parse_statement(tokens, pos) {
        Ok(s) => s,
        Err(e) => {
            return Err(e);
        },
    };
    if !token_is(tokens, *pos, Token::CloseBrace) {
        return Err(SyntaxError::MissingCloseBrace);
    }
    *pos = *pos + 1;
    Ok(Node::Function(name, Box::new(body)))
}

/// Parses a whole program from its tokens; tokens after the function are not
/// read.
pub fn parse(tokens: &Vec<Token>) -> (r: Result<Node, SyntaxError>)
    ensures
        match r {
            Ok(n) => parse_program(tokens_model(tokens@)) == Ok::<_, ErrorModel>(n@),
            Err(e) => parse_program(tokens_model(tokens@)) == Err::<NodeModel, _>(e@),
        },
{
    let mut pos: usize = 0;
    match parse_function(tokens, &mut pos) {
        Ok(f) => Ok(Node::Program(Box::new(f))),
        Err(e) => Err(e),
    }
}

// ---------------------------------------------------------------------------
// The tokens of a tree, and parsing them back
// ---------------------------------------------------------------------------

pub open spec fn unop_token(op: UnOp) -> TokenModel {
    match op {
        UnOp::Negate => TokenModel::Minus,
        UnOp::Complement => TokenModel::Tilde,
        UnOp::LogicalNegate => TokenModel::Bang,
    }
}

pub open spec fn binop_token(op: BinOp) -> TokenModel {
    match op {
        BinOp::Add => TokenModel::Plus,
        BinOp::Subtract => TokenModel::Minus,
        BinOp::Multiply => TokenModel::Asterisk,
        BinOp::Divide => TokenModel::Slash,
    }
}

/// The tokens of a factor in source order, parentheses included.
pub open spec fn factor_tokens(f: Factor) -> Seq<TokenModel>
    decreases f,
{
    match f {
        Factor::IntLiteral(n) => seq![TokenModel::IntLiteral(n)],
        Factor::UnOp(op, g) => seq![unop_token(op)] + factor_tokens(*g),
        Factor::BinOp(op, a, b) => factor_tokens(*a) + seq![binop_token(op)] + factor_tokens(*b),
        Factor::Expr(e) => seq![TokenModel::OpenParen] + expr_tokens(*e) + seq![
            TokenModel::CloseParen,
        ],
    }
}

pub open spec fn term_tokens(t: Term) -> Seq<TokenModel>
    decreases t,
{
    match t {
        Term::Factor(f) => factor_tokens(*f),
        Term::BinOp(op, a, b) => term_tokens(*a) + seq![binop_token(op)] + term_tokens(*b),
    }
}

pub open spec fn expr_tokens(e: Expr) -> Seq<TokenModel>
    decreases e,
{
    match e {
        Expr::Term(t) => term_tokens(*t),
    }
}

/// A literal, a unary operator on an atom, or a parenthesized expression.
pub open spec fn is_atom(f: Factor) -> bool
    decreases f, 0nat,
{
    match f {
        Factor::IntLiteral(_) => true,
        Factor::UnOp(_, g) => is_atom(*g),
        Factor::Expr(e) => is_precedence_tree(*e),
        Factor::BinOp(_, _, _) => false,
    }
}

/// Atoms joined by `*` and `/`, grouped to the left.
pub open spec fn is_product(f: Factor) -> bool
    decreases f, 1nat,
{
    match f {
        Factor::BinOp(op, a, b) => (op is Multiply || op is Divide) && is_product(*a) && is_atom(
            *b,
        ),
        _ => is_atom(f),
    }
}

/// Products joined by `+` and `-`, grouped to the left.
pub open spec fn is_sum(t: Term) -> bool
    decreases t, 2nat,
{
    match t {
        Term::Factor(f) => is_product(*f),
        Term::BinOp(op, a, b) => (op is Add || op is Subtract) && is_sum(*a) && match *b {
            Term::Factor(f) => is_product(*f),
            _ => false,
        },
    }
}

/// An expression tree as standard precedence groups its tokens: unary
/// operators bind tightest, then `*` and `/`, then `+` and `-`, each tier
/// grouped to the left, with parentheses as atoms.
pub open spec fn is_precedence_tree(e: Expr) -> bool
    decreases e, 3nat,
{
    match e {
        Expr::Term(t) => is_sum(*t),
    }
}

pub open spec fn first_atom(f: Factor) -> Factor
    decreases f,
{
    match f {
        Factor::BinOp(_, a, _) => first_atom(*a),
        _ => f,
    }
}

pub open spec fn first_term(t: Term) -> Term
    decreases t,
{
    match t {
        Term::BinOp(_, a, _) => first_term(*a),
        _ => t,
    }
}

/// `ts` holds `xs` from position `p` on.
pub open spec fn tokens_at(ts: Seq<TokenModel>, p: int, xs: Seq<TokenModel>) -> bool {
    0 <= p && p + xs.len() <= ts.len() && forall|i: int| 0 <= i < xs.len() ==> ts[p + i] == xs[i]
}

proof fn lemma_tokens_at_split(ts: Seq<TokenModel>, p: int, xs: Seq<TokenModel>, ys: Seq<TokenModel>)
    requires
        tokens_at(ts, p, xs + ys),
    ensures
        tokens_at(ts, p, xs),
        tokens_at(ts, p + xs.len(), ys),
{
    assert forall|i: int| 0 <= i < xs.len() implies ts[p + i] == xs[i] by {
        assert((xs + ys)[i] == xs[i]);
    }
    assert forall|i: int| 0 <= i < ys.len() implies ts[p + xs.len() + i] == ys[i] by {
        assert((xs + ys)[xs.len() + i] == ys[i]);
    }
}

/// Splits the tokens of `a op b` at `p` into its three parts.
proof fn lemma_tokens_at_infix(
    ts: Seq<TokenModel>,
    p: int,
    a: Seq<TokenModel>,
    op: TokenModel,
    b: Seq<TokenModel>,
)
    requires
        tokens_at(ts, p, a + seq![op] + b),
    ensures
        tokens_at(ts, p, a),
        token_at(ts, p + a.len()) == Some(op),
        tokens_at(ts, p + a.len() + 1, b),
{
    lemma_tokens_at_split(ts, p, a + seq![op], b);
    lemma_tokens_at_split(ts, p, a, seq![op]);
    assert(ts[p + a.len() + 0] == seq![op][0]);
}

proof fn lemma_factor_tokens_nonempty(f: Factor)
    ensures
        factor_tokens(f).len() >= 1,
{
}

proof fn lemma_parse_atom(ts: Seq<TokenModel>, p: int, f: Factor)
    requires
        is_atom(f),
        tokens_at(ts, p, factor_tokens(f)),
    ensures
        parse_factor_at(ts, p) == Ok::<_, ErrorModel>((f, p + factor_tokens(f).len())),
    decreases f, 0nat,
{
    match f {
        Factor::IntLiteral(n) => {
            assert(ts[p + 0] == factor_tokens(f)[0]);
        },
        Factor::UnOp(op, g) => {
            lemma_tokens_at_split(ts, p, seq![unop_token(op)], factor_tokens(*g));
            assert(ts[p + 0] == seq![unop_token(op)][0]);
            lemma_parse_atom(ts, p + 1, *g);
        },
        Factor::Expr(e) => {
            let inner = expr_tokens(*e);
            lemma_tokens_at_split(ts, p, seq![TokenModel::OpenParen] + inner, seq![TokenModel::CloseParen]);
            lemma_tokens_at_split(ts, p, seq![TokenModel::OpenParen], inner);
            assert(ts[p + 0] == seq![TokenModel::OpenParen][0]);
            let close = p + 1 + inner.len();
            assert(ts[close + 0] == seq![TokenModel::CloseParen][0]);
            lemma_parse_expr(ts, p + 1, *e);
        },
        Factor::BinOp(_, _, _) => {},
    }
}

proof fn lemma_parse_product(ts: Seq<TokenModel>, p: int, f: Factor)
    requires
        is_product(f),
        tokens_at(ts, p, factor_tokens(f)),
    ensures
        parse_factor_at(ts, p) == Ok::<_, ErrorModel>(
            (first_atom(f), p + factor_tokens(first_atom(f)).len()),
        ),
        parse_term_tail(ts, p + factor_tokens(first_atom(f)).len(), first_atom(f))
            == parse_term_tail(ts, p + factor_tokens(f).len(), f),
    decreases f, 1nat,
{
    match f {
        Factor::BinOp(op, a, b) => {
            let k = p + factor_tokens(*a).len();
            let m = p + factor_tokens(f).len();
            lemma_tokens_at_infix(ts, p, factor_tokens(*a), binop_token(op), factor_tokens(*b));
            lemma_parse_product(ts, p, *a);
            lemma_parse_atom(ts, k + 1, *b);
            lemma_factor_tokens_nonempty(*b);
            assert(term_op(token_at(ts, k)) == Some(op));
            assert(parse_term_tail(ts, k, *a) == parse_term_tail(ts, m, f));
        },
        _ => {
            lemma_parse_atom(ts, p, f);
        },
    }
}

proof fn lemma_parse_sum(ts: Seq<TokenModel>, p: int, t: Term)
    requires
        is_sum(t),
        tokens_at(ts, p, term_tokens(t)),
        term_op(token_at(ts, p + term_tokens(t).len())) is None,
    ensures
        parse_term_at(ts, p) == Ok::<_, ErrorModel>(
            (first_term(t), p + term_tokens(first_term(t)).len()),
        ),
        parse_expr_tail(ts, p + term_tokens(first_term(t)).len(), first_term(t))
            == parse_expr_tail(ts, p + term_tokens(t).len(), t),
    decreases t, 2nat,
{
    match t {
        Term::Factor(f) => {
            let m = p + factor_tokens(*f).len();
            lemma_parse_product(ts, p, *f);
            lemma_factor_tokens_nonempty(first_atom(*f));
            assert(parse_term_tail(ts, m, *f) == Ok::<_, ErrorModel>((*f, m)));
        },
        Term::BinOp(op, a, b) => {
            let k = p + term_tokens(*a).len();
            let m = p + term_tokens(t).len();
            lemma_tokens_at_infix(ts, p, term_tokens(*a), binop_token(op), term_tokens(*b));
            assert(term_op(token_at(ts, k)) is None);
            lemma_parse_sum(ts, p, *a);
            lemma_parse_sum(ts, k + 1, *b);
            match *b {
                Term::Factor(g) => {
                    lemma_factor_tokens_nonempty(*g);
                },
                _ => {},
            }
            assert(first_term(*b) == *b);
            assert(expr_op(token_at(ts, k)) == Some(op));
            assert(parse_expr_tail(ts, k, *a) == parse_expr_tail(ts, m, t));
        },
    }
}

/// The tokens of a precedence tree, followed by a token that does not
/// continue an expression, parse back to the tree.
proof fn lemma_parse_expr(ts: Seq<TokenModel>, p: int, e: Expr)
    requires
        is_precedence_tree(e),
        tokens_at(ts, p, expr_tokens(e)),
        term_op(token_at(ts, p + expr_tokens(e).len())) is None,
        expr_op(token_at(ts, p + expr_tokens(e).len())) is None,
    ensures
        parse_expr_at(ts, p) == Ok::<_, ErrorModel>((e, p + expr_tokens(e).len())),
    decreases e, 3nat,
{
    match e {
        Expr::Term(t) => {
            let m = p + term_tokens(*t).len();
            lemma_parse_sum(ts, p, *t);
            lemma_first_term_tokens_nonempty(*t);
            assert(parse_expr_tail(ts, m, *t) == Ok::<_, ErrorModel>((*t, m)));
        },
    }
}

proof fn lemma_first_term_tokens_nonempty(t: Term)
    requires
        is_sum(t),
    ensures
        term_tokens(first_term(t)).len() >= 1,
    decreases t,
{
    match t {
        Term::Factor(f) => {
            lemma_factor_tokens_nonempty(*f);
        },
        Term::BinOp(_, a, _) => {
            lemma_first_term_tokens_nonempty(*a);
        },
    }
}

/// The tokens of `int name() { return e; }`.
pub open spec fn program_tokens(name: Seq<char>, e: Expr) -> Seq<TokenModel> {
    seq![
        TokenModel::IntKw,
        TokenModel::Identifier(name),
        TokenModel::OpenParen,
        TokenModel::CloseParen,
        TokenModel::OpenBrace,
        TokenModel::ReturnKw,
    ] + expr_tokens(e) + seq![TokenModel::Semicolon, TokenModel::CloseBrace]
}

/// The tokens of a program whose returned expression is a precedence tree
/// parse to that program and tree: parsing recovers the grouping that
/// standard precedence and left associativity give the tokens.
pub proof fn lemma_parse_program_tokens(name: Seq<char>, e: Expr)
    requires
        is_precedence_tree(e),
    ensures
        parse_program(program_tokens(name, e)) == Ok::<_, ErrorModel>(
            NodeModel::Program(
                Box::new(
                    NodeModel::Function(
                        name,
                        Box::new(NodeModel::Statement(Statement::Return, e)),
                    ),
                ),
            ),
        ),
{
    let head = seq![
        TokenModel::IntKw,
        TokenModel::Identifier(name),
        TokenModel::OpenParen,
        TokenModel::CloseParen,
        TokenModel::OpenBrace,
        TokenModel::ReturnKw,
    ];
    let body = expr_tokens(e);
    let tail = seq![TokenModel::Semicolon, TokenModel::CloseBrace];
    let ts = program_tokens(name, e);
    assert(tokens_at(ts, 0, head + body + tail)) by {
        assert forall|i: int| 0 <= i < ts.len() implies ts[0 + i] == (head + body + tail)[i] by {}
    }
    lemma_tokens_at_split(ts, 0, head + body, tail);
    lemma_tokens_at_split(ts, 0, head, body);
    let m = 6 + body.len() as int;
    assert(ts[m + 0] == tail[0]);
    assert(ts[m + 1] == tail[1]);
    assert forall|i: int| 0 <= i < 6 implies ts[i] == head[i] by {
        assert(ts[0 + i] == head[i]);
    }
    lemma_parse_expr(ts, 6, e);
}

proof fn lemma_factor_result(ts: Seq<TokenModel>, p: int)
    ensures
        parse_factor_at(ts, p) matches Ok((f, q)) ==> is_atom(f) && p < q <= ts.len(),
    decreases ts.len() - p, 0nat,
{
    if 0 <= p < ts.len() {
        match ts[p] {
            TokenModel::IntLiteral(_) => {},
            TokenModel::OpenParen => {
                lemma_expr_result(ts, p + 1);
            },
            t => {
                if unop_of(t) is Some {
                    lemma_factor_result(ts, p + 1);
                }
            },
        }
    }
}

proof fn lemma_term_tail_result(ts: Seq<TokenModel>, p: int, acc: Factor)
    requires
        is_product(acc),
        p <= ts.len(),
    ensures
        parse_term_tail(ts, p, acc) matches Ok((g, q)) ==> is_product(g) && p <= q <= ts.len(),
    decreases ts.len() - p, 1nat,
{
    if let Some(op) = term_op(token_at(ts, p)) {
        lemma_factor_result(ts, p + 1);
        if let Ok((f, q)) = parse_factor_at(ts, p + 1) {
            lemma_term_tail_result(ts, q, Factor::BinOp(op, Box::new(acc), Box::new(f)));
        }
    }
}

proof fn lemma_term_result(ts: Seq<TokenModel>, p: int)
    ensures
        parse_term_at(ts, p) matches Ok((t, q)) ==> (t matches Term::Factor(g) && is_product(*g))
            && p < q <= ts.len(),
    decreases ts.len() - p, 2nat,
{
    lemma_factor_result(ts, p);
    if let Ok((f, q)) = parse_factor_at(ts, p) {
        lemma_term_tail_result(ts, q, f);
    }
}

proof fn lemma_expr_tail_result(ts: Seq<TokenModel>, p: int, acc: Term)
    requires
        is_sum(acc),
        p <= ts.len(),
    ensures
        parse_expr_tail(ts, p, acc) matches Ok((u, q)) ==> is_sum(u) && p <= q <= ts.len(),
    decreases ts.len() - p, 3nat,
{
    if let Some(op) = expr_op(token_at(ts, p)) {
        lemma_term_result(ts, p + 1);
        if let Ok((t, q)) = parse_term_at(ts, p + 1) {
            lemma_expr_tail_result(ts, q, Term::BinOp(op, Box::new(acc), Box::new(t)));
        }
    }
}

proof fn lemma_expr_result(ts: Seq<TokenModel>, p: int)
    ensures
        parse_expr_at(ts, p) matches Ok((e, q)) ==> is_precedence_tree(e) && p < q <= ts.len(),
    decreases ts.len() - p, 4nat,
{
    lemma_term_result(ts, p);
    if let Ok((t, q)) = parse_term_at(ts, p) {
        lemma_expr_tail_result(ts, q, t);
    }
}

/// Every program the parser builds returns a precedence tree: whatever the
/// tokens, the parser groups them by standard precedence and left
/// associativity.
pub proof fn lemma_parsed_expression_is_precedence_tree(ts: Seq<TokenModel>)
    ensures
        match parse_program(ts) {
            Ok(NodeModel::Program(f)) => match *f {
                NodeModel::Function(_, body) => match *body {
                    NodeModel::Statement(Statement::Return, e) => is_precedence_tree(e),
                    _ => false,
                },
                _ => false,
            },
            Ok(_) => false,
            Err(_) => true,
        },
{
    if token_at(ts, 5) == Some(TokenModel::ReturnKw) {
        lemma_expr_result(ts, 6);
    }
}

} // verus!
