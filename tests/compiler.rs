use rcc::compiler::ast::{BinOp, Expr, Factor, Node, Statement, Term, UnOp};
use rcc::compiler::config::Config;
use rcc::compiler::error::SyntaxError;
use rcc::compiler::lexer::tokenize;
use rcc::compiler::parser::parse;
use rcc::compiler::{compile_to_assembly, get_exe_file, get_temp_assembly_file};

fn eval_factor(f: &Factor) -> i32 {
    match f {
        Factor::IntLiteral(n) => *n,
        Factor::Expr(e) => eval_expr(e),
        Factor::UnOp(op, g) => {
            let v = eval_factor(g);
            match op {
                UnOp::Negate => v.wrapping_neg(),
                UnOp::Complement => !v,
                UnOp::LogicalNegate => (v == 0) as i32,
            }
        }
        Factor::BinOp(op, a, b) => eval_binary(*op, eval_factor(a), eval_factor(b)),
    }
}

fn eval_term(t: &Term) -> i32 {
    match t {
        Term::Factor(f) => eval_factor(f),
        Term::BinOp(op, a, b) => eval_binary(*op, eval_term(a), eval_term(b)),
    }
}

fn eval_expr(e: &Expr) -> i32 {
    match e {
        Expr::Term(t) => eval_term(t),
    }
}

fn eval_binary(op: BinOp, a: i32, b: i32) -> i32 {
    match op {
        BinOp::Add => a.wrapping_add(b),
        BinOp::Subtract => a.wrapping_sub(b),
        BinOp::Multiply => a.wrapping_mul(b),
        BinOp::Divide => a / b,
    }
}

fn value_of(source: &str) -> i32 {
    match parse(&tokenize(source).unwrap()).unwrap() {
        Node::Program(f) => match *f {
            Node::Function(_, body) => match *body {
                Node::Statement(Statement::Return, e) => eval_expr(&e),
                other => panic!("not a statement: {:?}", other),
            },
            other => panic!("not a function: {:?}", other),
        },
        other => panic!("not a program: {:?}", other),
    }
}

fn error_of(source: &str) -> SyntaxError {
    compile_to_assembly(source).err().unwrap()
}

#[test]
fn assembly_file_names() {
    let cases = [
        ("test.c", "test.s"),
        ("mydir/src.c", "mydir/src.s"),
        ("src.c.c", "src.c.s"),
        ("/my/abs/path/to/file.c", "/my/abs/path/to/file.s"),
    ];
    for (input, output) in &cases {
        assert_eq!(get_temp_assembly_file(input), *output);
    }
}

#[test]
fn exe_file_names() {
    let cases = [
        ("test.c", "test"),
        ("mydir/src.c", "mydir/src"),
        ("src.c.c", "src.c"),
        ("/my/abs/path/to/file.c", "/my/abs/path/to/file"),
    ];
    for (input, output) in &cases {
        assert_eq!(get_exe_file(input), *output);
    }
}

#[test]
fn config_takes_the_first_argument() {
    let args = vec![String::from("rcc"), String::from("prog.c"), String::from("extra")];
    assert_eq!(Config::new(args).ok().unwrap().filename, "prog.c");
    assert_eq!(
        Config::new(vec![String::from("rcc")]).err().unwrap(),
        "No file path provided"
    );
    assert!(Config::new(Vec::new()).is_err());
}

#[test]
fn compiles_a_program() {
    assert_eq!(
        compile_to_assembly("int main() {\n    return 2;\n}\n").unwrap(),
        ".globl _main
_main:
  movl\t$2, %eax
  ret"
    );
    assert_eq!(
        compile_to_assembly("int main(){return -~!0x0;}").unwrap(),
        ".globl _main
_main:
  movl\t$0, %eax
  cmpl\t$0, %eax
  movl\t$0, %eax
  sete\t%al
  not\t%eax
  neg\t%eax
  ret"
    );
}

#[test]
fn precedence_of_multiplication() {
    assert_eq!(value_of("int main() { return 2 + 3 * 4; }"), 14);
    assert_eq!(value_of("int main() { return (2 + 3) * 4; }"), 20);
    assert_eq!(
        compile_to_assembly("int main() { return 2 + 3 * 4; }").unwrap(),
        ".globl _main
_main:
  movl\t$2, %eax
  push\t%rax
  movl\t$3, %eax
  push\t%rax
  movl\t$4, %eax
  pop\t%rcx
  imul\t%ecx, %eax
  pop\t%rcx
  addl\t%ecx, %eax
  ret"
    );
}

#[test]
fn associativity_of_subtraction() {
    assert_eq!(value_of("int main() { return 1 - 2 - 3; }"), -4);
    assert_eq!(value_of("int main() { return 12 / 3 / 2; }"), 2);
    assert_eq!(value_of("int main() { return -7 / 2; }"), -3);
    assert_eq!(value_of("int main() { return !5 + !0 * ~0; }"), -1);
}

#[test]
fn error_kinds_of_malformed_programs() {
    assert_eq!(error_of("int main() { return 2 }"), SyntaxError::MissingSemicolon);
    assert_eq!(error_of("int main() { return (2 + 3; }"), SyntaxError::MissingCloseParen);
    assert_eq!(error_of("int main() { return 2;"), SyntaxError::MissingCloseBrace);
    assert_eq!(error_of("int main() { RETURN 2; }"), SyntaxError::UnexpectedToken);
    assert_eq!(error_of("int main() { return0; }"), SyntaxError::UnexpectedToken);
    assert_eq!(error_of("int main() { return 2 + ; }"), SyntaxError::InvalidExpression);
    assert_eq!(error_of("int main() { return / 3; }"), SyntaxError::InvalidExpression);
    assert_eq!(error_of("int main() { return !-; }"), SyntaxError::InvalidExpression);
    assert_eq!(error_of("int main() { return 2 % 3; }"), SyntaxError::InvalidIdentifier(String::from("%")));
    assert_eq!(
        error_of("int main() { return 99999999999; }"),
        SyntaxError::InvalidIntLiteral(String::from("99999999999"))
    );
}

#[test]
fn same_input_same_error() {
    let source = "int main() { return 1 +; }";
    let first = compile_to_assembly(source).err().unwrap();
    for _ in 0..3 {
        assert_eq!(compile_to_assembly(source).err().unwrap(), first);
    }
    assert_eq!(first, SyntaxError::InvalidExpression);
}

#[test]
fn error_messages() {
    assert_eq!(
        SyntaxError::InvalidIdentifier(String::from("$x")).message(),
        "Syntax Error: Invalid identifier: $x"
    );
    assert_eq!(
        SyntaxError::MissingKeyword(String::from("int")).message(),
        "Syntax Error: Expected \"int\" keyword"
    );
    assert_eq!(SyntaxError::MissingSemicolon.message(), "Syntax Error: Expected semicolon");
    assert_eq!(
        SyntaxError::InvalidIntLiteral(String::from("0x80000000")).message(),
        "Syntax Error: Integer literal out of range: 0x80000000"
    );
}

#[test]
fn spaced_program_goes_through_every_stage() {
    let source = "int main ( ) { return - ( 1 + 2 ) * 3 - ~ 4 / 2 ; } ";
    let tokens = tokenize(source).unwrap();
    assert_eq!(tokens.len(), 21);
    assert_eq!(value_of(source), -9 - (!4) / 2);
    assert!(compile_to_assembly(source).unwrap().starts_with(".globl _main\n_main:\n"));
}
