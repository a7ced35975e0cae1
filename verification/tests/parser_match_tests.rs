use vibelang::ast::{AstNode, BinaryOp, CallArg, CompoundOp, LambdaBody, Pattern, PatternElem, TypeExpr, UnaryOp};
use vibelang::error::{ParseError, Span};
use vibelang::lexer::{Lexer, TokenKind};
use vibelang::parser::Parser;

fn parse_ok(src: &str) {
    let mut lexer = Lexer::new(src);
    let tokens = lexer.tokenize().expect("lex");
    let mut parser = Parser::new(tokens);
    parser.parse().expect("parse");
}

fn parse_err_contains(src: &str, needle: &str) {
    let mut lexer = Lexer::new(src);
    let tokens = lexer.tokenize().expect("lex");
    let mut parser = Parser::new(tokens);
    let err = parser.parse().expect_err("expected parse error");
    let msg = err.display();
    assert!(msg.contains(needle), "expected `{needle}` in `{msg}`");
}

#[test]
fn match_parser_edge_01_no_trailing_comma_with_comment_ok() {
    parse_ok(
        r#"enum Option<T> { None, Some(T) }
           struct Point { x: Int, y: Int, }
           func f() = Option::Some(Point { x: 1, y: 2 });
           func main() {
               match f() {
                   Option::Some(Point { x, y }) => x + y
                   // no trailing comma
               }
           }"#,
    );
}

#[test]
fn match_parser_edge_02_trailing_comma_with_comment_ok() {
    parse_ok(
        r#"enum Option<T> { None, Some(T) }
           func f() = Option::None;
           func main() {
               match f() {
                   Option::None => 0,
                   // trailing comma before brace
               }
           }"#,
    );
}

#[test]
fn match_parser_edge_03_nested_tuple_array_rest_ok() {
    parse_ok(
        r#"func main() {
               let a: [Int] = [1, 2, 3, 4];
               match a {
                   [head, .., tail] => { let _ = head + tail; },
               }
           }"#,
    );
}

#[test]
fn match_parser_edge_04_alternatives_and_guard_ok() {
    parse_ok(
        r#"enum Option<T> { None, Some(T) }
           func f() = Option::Some(7);
           func main() {
               let _: Int = match f() {
                   Option::Some(1) | Option::Some(2) if true => 1,
                   Option::Some(x) => x,
                   Option::None => 0,
               };
           }"#,
    );
}

#[test]
fn match_parser_edge_05_struct_rest_and_wildcards_ok() {
    parse_ok(
        r#"struct S { a: Int, b: Int, c: Int, }
           func mk() = S { a: 1, b: 2, c: 3 };
           func main() {
               match mk() {
                   S { a: _, b, .. } => { let _ = b; },
               }
           }"#,
    );
}

#[test]
fn match_parser_edge_06_missing_fat_arrow_err() {
    parse_err_contains(
        r#"enum Option<T> { None, Some(T) }
           func f() = Option::None;
           func main() {
               match f() {
                   Option::None = 0,
               }
           }"#,
        "expected `=>`",
    );
}

#[test]
fn match_parser_edge_07_missing_comma_between_arms_err() {
    parse_err_contains(
        r#"enum Option<T> { None, Some(T) }
           func f() = Option::None;
           func main() {
               match f() {
                   Option::None => 0
                   Option::Some(x) => x,
               }
           }"#,
        "expected `,` or `}` after match arm",
    );
}

#[test]
fn match_parser_edge_08_double_tuple_rest_err() {
    parse_err_contains(
        r#"func main() {
               let t = (1, 2, 3);
               match t {
                   (a, .., b, ..) => a + b,
               }
           }"#,
        "at most one `..`",
    );
}

#[test]
fn match_parser_edge_09_double_array_rest_parses() {
    parse_ok(
        r#"func main() {
               let a: [Int] = [1, 2, 3];
               match a {
                   [x, .., y, ..] => x + y,
               }
           }"#,
    );
}

#[test]
fn match_parser_edge_10_enum_pattern_type_args_ok() {
    parse_ok(
        r#"enum Option<T> { None, Some(T) }
           func f() = Option::Some(1);
           func main() {
               match f() {
                   Option<Int>::Some(x) => { let _ = x; },
                   Option<Int>::None => {},
               }
           }"#,
    );
}

#[test]
fn struct_fields_comma_separated_ok() {
    parse_ok(
        r#"struct Point { x: Int, y: Int }
           func main() { let _ = Point { x: 1, y: 2 }; }"#,
    );
}

#[test]
fn struct_fields_trailing_comma_ok() {
    parse_ok(
        r#"struct Point { x: Int, y: Int, }
           func main() { let _ = Point { x: 1, y: 2 }; }"#,
    );
}

#[test]
fn struct_fields_comments_and_comma_ok() {
    parse_ok(
        r#"struct Point {
               x: Int, // x
               y: Int, // y
           }
           func main() { let _ = Point { x: 1, y: 2 }; }"#,
    );
}

#[test]
fn struct_fields_semicolon_rejected() {
    parse_err_contains(
        r#"struct Point { x: Int; y: Int; }
           func main() {}"#,
        "expected `,` or `}` in struct definition",
    );
}

#[test]
fn struct_fields_missing_comma_rejected() {
    parse_err_contains(
        r#"struct Point { x: Int y: Int }
           func main() {}"#,
        "expected `,` or `}` in struct definition",
    );
}

#[test]
fn if_let_parser_edge_01_nested_enum_struct_ok() {
    parse_ok(
        r#"enum Option<T> { None, Some(T) }
           struct Point { x: Int, y: Int, }
           func main() {
               if let Option::Some(Point { x, y: _ }) = Option::Some(Point { x: 1, y: 2 }) {
                   let _ = x;
               } else { }
           }"#,
    );
}

#[test]
fn if_let_parser_edge_02_tuple_and_array_pattern_ok() {
    parse_ok(
        r#"func main() {
               if let ((a, b), arr) = ((1, 2), [3, 4, 5]) {
                   let _ = a + b;
                   let _ = arr;
               } else { }
           }"#,
    );
}

#[test]
fn if_let_parser_edge_03_struct_rest_nested_ok() {
    parse_ok(
        r#"struct Inner { a: Int, b: Int, c: Int, }
           struct Wrap { i: Inner, t: Int, }
           func main() {
               if let Wrap { i: Inner { a, .. }, t: _ } = Wrap { i: Inner { a: 1, b: 2, c: 3 }, t: 4 } {
                   let _ = a;
               } else { }
           }"#,
    );
}

#[test]
fn if_let_parser_edge_04_missing_equals_rejected() {
    parse_err_contains(
        r#"func main() {
               if let (a, b) (1, 2) { let _ = a + b; } else { }
           }"#,
        "expected `=`",
    );
}

#[test]
fn if_let_parser_edge_05_missing_else_block_ok() {
    parse_ok(
        r#"func main() {
               if let [x, y] = [1, 2] {
                   let _ = x + y;
               }
           }"#,
    );
}
