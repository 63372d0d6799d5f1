use vstd::prelude::*;

use super::text::{i32_text, int_text};

verus! {

/// The nodes above the expression level: a program holds one function, a
/// function holds one statement, and a statement holds one expression.
#[derive(Debug, PartialEq, Eq)]
pub enum Node {
    Program(Box<Node>),
    Function(String, Box<Node>),
    Statement(Statement, Box<Expr>),
}

#[derive(Debug, PartialEq, Eq, Clone, Copy)]
pub enum Statement {
    Return,
}

/// The loosest tier of the expression grammar.
#[derive(Debug, PartialEq, Eq)]
pub enum Expr {
    Term(Box<Term>),
}

/// The middle tier: terms combined by `+` and `-`.
#[derive(Debug, PartialEq, Eq)]
pub enum Term {
    Factor(Box<Factor>),
    BinOp(BinOp, Box<Term>, Box<Term>),
}

/// The tightest tier: literals, unary operators, factors combined by `*` and
/// `/`, and parenthesized expressions.
#[derive(Debug, PartialEq, Eq)]
pub enum Factor {
    Expr(Box<Expr>),
    UnOp(UnOp, Box<Factor>),
    IntLiteral(i32),
    BinOp(BinOp, Box<Factor>, Box<Factor>),
}

#[derive(Debug, PartialEq, Eq, Clone, Copy)]
pub enum UnOp {
    Negate,
    Complement,
    LogicalNegate,
}

#[derive(Debug, PartialEq, Eq, Clone, Copy)]
pub enum BinOp {
    Add,
    Subtract,
    Multiply,
    Divide,
}

/// A node with the function's name as characters.
pub enum NodeModel {
    Program(Box<NodeModel>),
    Function(Seq<char>, Box<NodeModel>),
    Statement(Statement, Expr),
}

impl View for Node {
    type V = NodeModel;

    open spec fn view(&self) -> NodeModel
        decreases self,
    {
        match self {
            Node::Program(n) => NodeModel::Program(Box::new((**n).view())),
            Node::Function(name, body) => NodeModel::Function(name@, Box::new((**body).view())),
            Node::Statement(s, e) => NodeModel::Statement(*s, **e),
        }
    }
}

// ---------------------------------------------------------------------------
// Printing
// ---------------------------------------------------------------------------

pub open spec fn unop_text(op: UnOp) -> Seq<char> {
    match op {
        UnOp::Negate => "-"@,
        UnOp::Complement => "~"@,
        UnOp::LogicalNegate => "!"@,
    }
}

pub open spec fn binop_text(op: BinOp) -> Seq<char> {
    match op {
        BinOp::Add => "+"@,
        BinOp::Subtract => "-"@,
        BinOp::Multiply => "*"@,
        BinOp::Divide => "/"@,
    }
}

/// `a op b`, with the operator between spaces.
pub open spec fn infix_text(a: Seq<char>, op: BinOp, b: Seq<char>) -> Seq<char> {
    a + " "@ + binop_text(op) + " "@ + b
}

pub open spec fn factor_text(f: Factor) -> Seq<char>
    decreases f,
{
    match f {
        Factor::Expr(e) => expr_text(*e),
        Factor::UnOp(op, g) => unop_text(op) + factor_text(*g),
        Factor::IntLiteral(n) => "Int<"@ + int_text(n as int) + ">"@,
        Factor::BinOp(op, a, b) => infix_text(factor_text(*a), op, factor_text(*b)),
    }
}

pub open spec fn term_text(t: Term) -> Seq<char>
    decreases t,
{
    match t {
        Term::Factor(f) => factor_text(*f),
        Term::BinOp(op, a, b) => infix_text(term_text(*a), op, term_text(*b)),
    }
}

pub open spec fn expr_text(e: Expr) -> Seq<char>
    decreases e,
{
    match e {
        Expr::Term(t) => term_text(*t),
    }
}

pub open spec fn statement_text(s: Statement) -> Seq<char> {
    match s {
        Statement::Return => "RETURN"@,
    }
}

pub open spec fn node_text(n: NodeModel) -> Seq<char>
    decreases n,
{
    match n {
        NodeModel::Program(f) => node_text(*f),
        NodeModel::Function(name, body) => "FUN INT "@ + name + ":\n    params: ()\n    body:\n        "@
            + node_text(*body),
        NodeModel::Statement(s, e) => statement_text(s) + " "@ + expr_text(e),
    }
}

/// `a op b` as a string.
fn infix_to_string(a: String, op: BinOp, b: String) -> (r: String)
    ensures
        r@ == infix_text(a@, op, b@),
{
    let mut t = a;
    t.append(" ");
    let o = op.to_string();
    t.append(o.as_str());
    t.append(" ");
    t.append(b.as_str());
    t
}

impl UnOp {
    pub fn to_string(&self) -> (r: String)
        ensures
            r@ == unop_text(*self),
    {
        match self {
            UnOp::Negate => String::from_str("-"),
            UnOp::Complement => String::from_str("~"),
            UnOp::LogicalNegate => String::from_str("!"),
        }
    }
}

impl BinOp {
    pub fn to_string(&self) -> (r: String)
        ensures
            r@ == binop_text(*self),
    {
        match self {
            BinOp::Add => String::from_str("+"),
            BinOp::Subtract => String::from_str("-"),
            BinOp::Multiply => String::from_str("*"),
            BinOp::Divide => String::from_str("/"),
        }
    }
}

impl Factor {
    pub fn to_string(&self) -> (r: String)
        ensures
            r@ == factor_text(*self),
        decreases self,
    {
        match self {
            Factor::Expr(e) => e.to_string(),
            Factor::UnOp(op, f) => {
                let mut t = op.to_string();
                let inner = f.to_string();
                t.append(inner.as_str());
                t
            },
            Factor::IntLiteral(n) => {
                let mut t = String::from_str("Int<");
                let digits = i32_text(*n);
                t.append(digits.as_str());
                t.append(">");
                t
            },
            Factor::BinOp(op, a, b) => infix_to_string(a.to_string(), *op, b.to_string()),
        }
    }
}

impl Term {
    pub fn to_string(&self) -> (r: String)
        ensures
            r@ == term_text(*self),
        decreases self,
    {
        match self {
            Term::Factor(f) => f.to_string(),
            Term::BinOp(op, a, b) => infix_to_string(a.to_string(), *op, b.to_string()),
        }
    }
}

impl Expr {
    pub fn to_string(&self) -> (r: String)
        ensures
            r@ == expr_text(*self),
        decreases self,
    {
        match self {
            Expr::Term(t) => t.to_string(),
        }
    }
}

impl Statement {
    pub fn to_string(&self) -> (r: String)
        ensures
            r@ == statement_text(*self),
    {
        match self {
            Statement::Return => String::from_str("RETURN"),
        }
    }
}

impl Node {
    /// The tree as indented text, for reading.
    pub fn to_string(&self) -> (r: String)
        ensures
            r@ == node_text(self@),
        decreases self,
    {
        match self {
            Node::Program(f) => f.to_string(),
            Node::Function(name, body) => {
                let mut t = String::from_str("FUN INT ");
                t.append(name.as_str());
                t.append(":\n    params: ()\n    body:\n        ");
                let inner = body.to_string();
                t.append(inner.as_str());
                t
            },
            Node::Statement(s, e) => {
                let mut t = s.to_string();
                t.append(" ");
                let inner = e.to_string();
                t.append(inner.as_str());
                t
            },
        }
    }
}

} // verus!
