use vibelang::ast::{AstNode, BinaryOp, CallArg, CompoundOp, LambdaBody, Pattern, PatternElem, TypeExpr, UnaryOp};
use vibelang::error::{ParseError, Span};
use vibelang::lexer::{Lexer, TokenKind};
use vibelang::parser::Parser;

#[test]
fn parse_extension_decl_and_method_calls() {
    let src = r#"
func String::to_string(self): String { return self; }
func Int::max(a: Int, b: Int): Int { return a; }
func main() {
let s = "x".to_string();
let n = Int::max(1, 2);
}
"#;
    let mut lexer = Lexer::new(src);
    let tokens = lexer.tokenize().expect("lex");
    let mut parser = Parser::new(tokens);
    parser.parse().expect("parse");
}

#[test]
fn parse_generic_array_extension_type_keyword() {
    let src = r#"
func [type T]::len<T>(self): Int { return 0; }
func main() {}
"#;
    let mut lexer = Lexer::new(src);
    let tokens = lexer.tokenize().expect("lex");
    let mut parser = Parser::new(tokens);
    parser.parse().expect("parse");
}

#[test]
fn parse_generic_array_extension_enum_type_params() {
    let src = r#"
func [Result<type T1, type T2>]::len<T1, T2>(self: [Result<T1, T2>]): Int { return 0; }
func main() {}
"#;
    let mut lexer = Lexer::new(src);
    let tokens = lexer.tokenize().expect("lex");
    let mut parser = Parser::new(tokens);
    parser.parse().expect("parse");
}

#[test]
fn parse_zero_field_struct_literal_method_chain() {
    let src = r#"
struct Void {}
func Void::bar<T>(self, x: T): T { return x; }
func main() {
let a = Void{}.bar(1);
let b = Void {}.bar(2);
}
"#;
    let mut lexer = Lexer::new(src);
    let tokens = lexer.tokenize().expect("lex");
    let mut parser = Parser::new(tokens);
    parser.parse().expect("parse");
}

#[test]
fn parse_generic_struct_decl_and_literals() {
    let src = r#"
struct Generic<T> { a: T, b: T }
struct UnitGeneric<T>;
func main() {
let g = Generic { a: 1, b: 2 };
let g2 = Generic<Int> { a: 3, b: 4 };
let u = UnitGeneric<Int>;
}
"#;
    let mut lexer = Lexer::new(src);
    let tokens = lexer.tokenize().expect("lex");
    let mut parser = Parser::new(tokens);
    parser.parse().expect("parse");
}

#[test]
fn lt_comparison_not_parsed_as_generic_args() {
    let src = r#"
func main() {
let guess_int: Int = 1;
let secret: Int = 2;
if guess_int < secret {
    let _ = 0;
}
}
"#;
    let mut lexer = Lexer::new(src);
    let tokens = lexer.tokenize().expect("lex");
    let mut parser = Parser::new(tokens);
    parser.parse().expect("parse");
}

#[test]
fn generic_call_with_explicit_type_args_still_parses() {
    let src = r#"
func id<T>(x: T): T { return x; }
func main() {
let x = id<Int>(1);
}
"#;
    let mut lexer = Lexer::new(src);
    let tokens = lexer.tokenize().expect("lex");
    let mut parser = Parser::new(tokens);
    parser.parse().expect("parse");
}

#[test]
fn parse_function_shorthand_with_equals() {
    let src = r#"
func inc(x: Int): Int = x + 1;
func main() {
let _ = inc(3);
}
"#;
    let mut lexer = Lexer::new(src);
    let tokens = lexer.tokenize().expect("lex");
    let mut parser = Parser::new(tokens);
    parser.parse().expect("parse");
}

#[test]
fn reject_function_shorthand_with_fat_arrow() {
    let src = r#"
func inc(x: Int): Int => x + 1;
func main() {}
"#;
    let mut lexer = Lexer::new(src);
    let tokens = lexer.tokenize().expect("lex");
    let mut parser = Parser::new(tokens);
    let err = parser.parse().expect_err("must fail");
    match err {
        ParseError::UnexpectedToken { message, .. } => {
            assert!(
                message.contains("function shorthand now uses `=`"),
                "unexpected message: {message}"
            );
        }
        other => panic!("unexpected error: {other:?}"),
    }
}

#[test]
fn parse_type_alias_simple_and_generic() {
    let src = r#"
type UserId = Int;
type Res<T> = Result<T, String>;
func main() {
let _: UserId = 1;
let _: Res<Int> = Result<Int, String>::Ok(1);
}
"#;
    let mut lexer = Lexer::new(src);
    let tokens = lexer.tokenize().expect("lex");
    let mut parser = Parser::new(tokens);
    parser.parse().expect("parse");
}

#[test]
fn reject_type_alias_missing_equals() {
    let src = r#"
type UserId Int;
func main() {}
"#;
    let mut lexer = Lexer::new(src);
    let tokens = lexer.tokenize().expect("lex");
    let mut parser = Parser::new(tokens);
    let err = parser.parse().expect_err("must fail");
    match err {
        ParseError::UnexpectedToken { message, .. } => {
            assert!(message.contains("expected `=`"), "{message}");
        }
        other => panic!("unexpected error: {other:?}"),
    }
}

#[test]
fn reject_internal_struct_task_default_and_async_await() {
    let src = r#"
internal struct Task<T = ()>;
internal async func sleep(ms: Int): Task;
async func work(): Task {
await sleep(0);
return;
}
async func main(): Task {
await work();
}
"#;
    let mut lexer = Lexer::new(src);
    let tokens = lexer.tokenize().expect("lex");
    let mut parser = Parser::new(tokens);
    parser
        .parse()
        .expect_err("internal struct declarations must be rejected");
}
