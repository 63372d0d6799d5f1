use vstd::prelude::*;

pub mod assembly;
pub mod ast;
pub mod config;
pub mod error;
pub mod lexer;
pub mod parser;
pub mod semantics;
pub mod text;

use self::assembly::{assembly_of, expr_code, generate, program_text, Instr};
use self::ast::{NodeModel, Statement};
use self::error::{ErrorModel, SyntaxError};
use self::lexer::{is_identifier_text, is_writable, lemma_lex_spaced_text, lex, spaced_text, tokenize};
use self::ast::Expr;
use self::parser::{
    expr_tokens, is_precedence_tree, lemma_parse_program_tokens, parse, parse_program, program_tokens,
};
use self::semantics::{computes, eval_expr, lemma_expr_code};

verus! {

// ---------------------------------------------------------------------------
// File names
// ---------------------------------------------------------------------------

/// The path `path` with its extension replaced by `ext`, or removed when `ext`
/// is empty.
pub uninterp spec fn path_with_extension(path: Seq<char>, ext: Seq<char>) -> Seq<char>;

/// Relies on `std::path::PathBuf::set_extension`, which replaces the extension
/// of the path's last component by `new_ext` (drops it when `new_ext` is
/// empty); under the path syntax of the platform the crate is built for, the
/// result depends on the two texts alone. Both are valid UTF-8 and the call
/// only cuts at a `.` and appends, so the lossy conversion back to a string
/// keeps every character. The call panics on an extension that holds a path
/// separator, which `requires` leaves out.
#[verifier::external_body]
fn replace_ext(input: &str, new_ext: &str) -> (r: String)
    requires
        forall|i: int| 0 <= i < new_ext@.len() ==> new_ext@[i] != '/' && new_ext@[i] != '\\',
    ensures
        r@ == path_with_extension(input@, new_ext@),
{
    let mut new_path = std::path::PathBuf::from(input);
    new_path.set_extension(new_ext);
    new_path.to_string_lossy().into_owned()
}

/// Where the assembly for `input_file` is written: the same path with the
/// extension `s`.
pub fn get_temp_assembly_file(input_file: &str) -> (r: String)
    ensures
        r@ == path_with_extension(input_file@, "s"@),
{
    proof {
        reveal_strlit("s");
    }
    replace_ext(input_file, "s")
}

/// Where the executable for `input_file` is written: the same path without
/// its extension.
pub fn get_exe_file(input_file: &str) -> (r: String)
    ensures
        r@ == path_with_extension(input_file@, ""@),
{
    proof {
        reveal_strlit("");
    }
    replace_ext(input_file, "")
}

// ---------------------------------------------------------------------------
// The pipeline
// ---------------------------------------------------------------------------

/// The outcome of compiling source text `s`: its assembly text, or the first
/// error of the lexer or the parser.
pub open spec fn compile_source(s: Seq<char>) -> Result<Seq<char>, ErrorModel> {
    match lex(s) {
        Ok(ts) => match parse_program(ts) {
            Ok(n) => match assembly_of(n) {
                Some(text) => Ok(text),
                None => Err(ErrorModel::Unknown),
            },
            Err(e) => Err(e),
        },
        Err(e) => Err(e),
    }
}

pub open spec fn outcome(r: Result<String, SyntaxError>) -> Result<Seq<char>, ErrorModel> {
    match r {
        Ok(text) => Ok(text@),
        Err(e) => Err(e@),
    }
}

/// Tokenizes, parses and generates code for a source text: the assembly text
/// of its function, or the first error.
pub fn compile_to_assembly(source: &str) -> (r: Result<String, SyntaxError>)
    ensures
        outcome(r) == compile_source(source@),
{
    let tokens = match tokenize(source) {
        Ok(ts) => ts,
        Err(e) => {
            return Err(e);
        },
    };
    let ast = match parse(&tokens) {
        Ok(n) => n,
        Err(e) => {
            return Err(e);
        },
    };
    match generate(&ast) {
        Ok(text) => Ok(text),
        Err(_) => Err(SyntaxError::Unknown),
    }
}

// ---------------------------------------------------------------------------
// Laws
// ---------------------------------------------------------------------------

/// Every source text that tokenizes and parses compiles: the result is the
/// function's label followed by the code of its returned expression and `ret`,
/// and that code leaves the expression's value in `%eax` (the return value)
/// under C's rules, with precedence as parsed and 0 and 1 for booleans.
pub proof fn lemma_valid_program_compiles(s: Seq<char>)
    requires
        lex(s) is Ok,
        parse_program(lex(s)->Ok_0) is Ok,
    ensures
        match parse_program(lex(s)->Ok_0) {
            Ok(NodeModel::Program(f)) => match *f {
                NodeModel::Function(name, body) => match *body {
                    NodeModel::Statement(Statement::Return, e) => compile_source(s) == Ok::<
                        _,
                        ErrorModel,
                    >(program_text(name, expr_code(e).push(Instr::Ret))) && computes(
                        expr_code(e),
                        eval_expr(e),
                    ),
                    _ => false,
                },
                _ => false,
            },
            _ => false,
        },
{
    match parse_program(lex(s)->Ok_0) {
        Ok(NodeModel::Program(f)) => match *f {
            NodeModel::Function(_, body) => match *body {
                NodeModel::Statement(_, e) => {
                    lemma_expr_code(e);
                },
                _ => {},
            },
            _ => {},
        },
        _ => {},
    }
}

/// Compiling the same source text twice gives the same outcome, the same
/// error kind included: nothing but the text decides it.
pub proof fn lemma_compile_deterministic(
    s1: Seq<char>,
    s2: Seq<char>,
    r1: Result<String, SyntaxError>,
    r2: Result<String, SyntaxError>,
)
    requires
        s1 == s2,
        outcome(r1) == compile_source(s1),
        outcome(r2) == compile_source(s2),
    ensures
        outcome(r1) == outcome(r2),
        r1 matches Err(e1) ==> r2 matches Err(e2) && e1@ == e2@,
{
}

/// A program of the subset, `int name() { return e; }` written with a space
/// after each token, goes through every stage: it lexes to its tokens in
/// source order, parses to the tree that standard precedence and left
/// associativity give them, and compiles to code that leaves the value of `e`
/// under C's rules in `%eax`.
pub proof fn lemma_program_round_trip(name: Seq<char>, e: Expr)
    requires
        is_identifier_text(name),
        is_precedence_tree(e),
        forall|i: int| 0 <= i < expr_tokens(e).len() ==> is_writable(#[trigger] expr_tokens(e)[i]),
    ensures
        lex(spaced_text(program_tokens(name, e))) == Ok::<_, ErrorModel>(program_tokens(name, e)),
        parse_program(program_tokens(name, e)) == Ok::<_, ErrorModel>(
            NodeModel::Program(
                Box::new(
                    NodeModel::Function(
                        name,
                        Box::new(NodeModel::Statement(Statement::Return, e)),
                    ),
                ),
            ),
        ),
        compile_source(spaced_text(program_tokens(name, e))) == Ok::<_, ErrorModel>(
            program_text(name, expr_code(e).push(Instr::Ret)),
        ),
        computes(expr_code(e), eval_expr(e)),
{
    let ts = program_tokens(name, e);
    assert forall|i: int| 0 <= i < ts.len() implies is_writable(#[trigger] ts[i]) by {
        if 6 <= i < 6 + expr_tokens(e).len() {
            assert(ts[i] == expr_tokens(e)[i - 6]);
        }
    }
    lemma_lex_spaced_text(ts);
    lemma_parse_program_tokens(name, e);
    lemma_expr_code(e);
}

} // verus!
