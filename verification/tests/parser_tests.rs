use vibelang::ast::{
    AstNode, BinaryOp, CallArg, CompoundOp, FunctionTypeParam, LambdaBody, Pattern, PatternElem, TypeExpr, UnaryOp,
};
use vibelang::error::{ParseError, Span};
use vibelang::lexer::{Lexer, TokenKind};
use vibelang::parser::Parser;

fn named_type_name(te: &TypeExpr) -> Option<&str> {
    match te {
        TypeExpr::Named(s) => Some(s.as_str()),
        _ => None,
    }
}

#[test]
fn test_parse_single_line_comment() {
    let mut lexer = Lexer::new("// comment");
    let tokens = lexer.tokenize().unwrap();
    let mut parser = Parser::new(tokens);
    let ast = parser.parse().unwrap();

    match ast {
        AstNode::Program(nodes) => {
            assert_eq!(nodes.len(), 1);
            assert!(matches!(nodes[0], AstNode::SingleLineComment(_)));
        }
        _ => panic!("Expected Program node"),
    }
}

#[test]
fn test_parse_multi_line_comment() {
    let mut lexer = Lexer::new("/* comment */");
    let tokens = lexer.tokenize().unwrap();
    let mut parser = Parser::new(tokens);
    let ast = parser.parse().unwrap();

    match ast {
        AstNode::Program(nodes) => {
            assert_eq!(nodes.len(), 1);
            assert!(matches!(nodes[0], AstNode::MultiLineComment(_)));
        }
        _ => panic!("Expected Program node"),
    }
}

#[test]
fn test_parse_mixed_comments() {
    let source = "// First\n/* Second */\n// Third";
    let mut lexer = Lexer::new(source);
    let tokens = lexer.tokenize().unwrap();
    let mut parser = Parser::new(tokens);
    let ast = parser.parse().unwrap();

    match ast {
        AstNode::Program(nodes) => {
            assert_eq!(nodes.len(), 3);
        }
        _ => panic!("Expected Program node"),
    }
}

#[test]
fn test_parse_decimal_integer() {
    let mut lexer = Lexer::new("42");
    let tokens = lexer.tokenize().unwrap();
    let mut parser = Parser::new(tokens);
    let ast = parser.parse().unwrap();

    match ast {
        AstNode::Program(nodes) => {
            assert_eq!(nodes.len(), 1);
            assert!(matches!(
                nodes[0],
                AstNode::IntegerLiteral {
                    value: 42,
                    ref original,
                    radix: 10,
                    ..
                } if original == "42"
            ));
        }
        _ => panic!("Expected Program node"),
    }
}

#[test]
fn test_parse_float_literal() {
    let mut lexer = Lexer::new("12_34_5.78_90");
    let tokens = lexer.tokenize().unwrap();
    let mut parser = Parser::new(tokens);
    let ast = parser.parse().unwrap();

    match ast {
        AstNode::Program(nodes) => {
            assert_eq!(nodes.len(), 1);
            assert!(matches!(
                nodes[0],
                AstNode::FloatLiteral {
                    ref original,
                    ref cleaned,
                    ..
                } if original == "12_34_5.78_90" && cleaned == "12345.7890"
            ));
        }
        _ => panic!("Expected Program node"),
    }
}

#[test]
fn parse_export_internal_enum_marks_export_and_internal() {
    let src = r#"export internal enum Method { Get }"#;
    let mut lexer = Lexer::new(src);
    let tokens = lexer.tokenize().unwrap();
    let mut parser = Parser::new(tokens);
    parser
        .parse()
        .expect_err("internal enums are no longer supported; only internal functions/async funcs");
}

#[test]
fn parse_internal_export_enum_marks_export_and_internal() {
    let src = r#"internal export enum Method { Get }"#;
    let mut lexer = Lexer::new(src);
    let tokens = lexer.tokenize().unwrap();
    let mut parser = Parser::new(tokens);
    parser
        .parse()
        .expect_err("internal export enum declarations must be rejected");
}

#[test]
fn test_parse_binary_integer() {
    let mut lexer = Lexer::new("0b1010");
    let tokens = lexer.tokenize().unwrap();
    let mut parser = Parser::new(tokens);
    let ast = parser.parse().unwrap();

    match ast {
        AstNode::Program(nodes) => {
            assert_eq!(nodes.len(), 1);
            assert!(matches!(
                nodes[0],
                AstNode::IntegerLiteral {
                    value: 10,
                    ref original,
                    radix: 2,
                    ..
                } if original == "0b1010"
            ));
        }
        _ => panic!("Expected Program node"),
    }
}

#[test]
fn test_parse_octal_integer() {
    let mut lexer = Lexer::new("0o755");
    let tokens = lexer.tokenize().unwrap();
    let mut parser = Parser::new(tokens);
    let ast = parser.parse().unwrap();

    match ast {
        AstNode::Program(nodes) => {
            assert_eq!(nodes.len(), 1);
            assert!(matches!(
                nodes[0],
                AstNode::IntegerLiteral {
                    value: 493,
                    ref original,
                    radix: 8,
                    ..
                } if original == "0o755"
            ));
        }
        _ => panic!("Expected Program node"),
    }
}

#[test]
fn test_parse_string_literal() {
    let mut lexer = Lexer::new(r#""Hello, world!""#);
    let tokens = lexer.tokenize().unwrap();
    let mut parser = Parser::new(tokens);
    let ast = parser.parse().unwrap();

    match ast {
        AstNode::Program(nodes) => {
            assert_eq!(nodes.len(), 1);
            match &nodes[0] {
                AstNode::StringLiteral {
                    value,
                    original,
                    ..
                } => {
                    assert_eq!(value, "Hello, world!");
                    assert_eq!(original, "\"Hello, world!\"");
                }
                _ => panic!("expected StringLiteral"),
            }
        }
        _ => panic!("Expected Program node"),
    }
}

#[test]
fn test_parse_strings_and_comments() {
    let src = r#""a" // c
"b""#;
    let mut lexer = Lexer::new(src);
    let tokens = lexer.tokenize().unwrap();
    let mut parser = Parser::new(tokens);
    let ast = parser.parse().unwrap();
    match ast {
        AstNode::Program(nodes) => {
            assert_eq!(nodes.len(), 3);
            assert!(matches!(
                nodes[0],
                AstNode::StringLiteral {
                    ref value,
                    ..
                } if value == "a"
            ));
            assert!(matches!(nodes[1], AstNode::SingleLineComment(_)));
            assert!(matches!(
                nodes[2],
                AstNode::StringLiteral {
                    ref value,
                    ..
                } if value == "b"
            ));
        }
        _ => panic!("Expected Program node"),
    }
}

#[test]
fn test_parse_hex_integer() {
    let mut lexer = Lexer::new("0xdeadbeef");
    let tokens = lexer.tokenize().unwrap();
    let mut parser = Parser::new(tokens);
    let ast = parser.parse().unwrap();

    match ast {
        AstNode::Program(nodes) => {
            assert_eq!(nodes.len(), 1);
            assert!(matches!(
                nodes[0],
                AstNode::IntegerLiteral {
                    value: 0xdeadbeef,
                    ref original,
                    radix: 16,
                    ..
                } if original == "0xdeadbeef"
            ));
        }
        _ => panic!("Expected Program node"),
    }
}

#[test]
fn test_parse_error_display() {
    let err = ParseError::UnexpectedEof {
        expected: "statement",
    };
    assert_eq!(
        err.display(),
        "parse error: unexpected end of file, expected statement"
    );
    assert_eq!(
        err.format_with_file("foo.vc"),
        "foo.vc: parse error: unexpected end of file, expected statement"
    );
}

#[test]
fn test_parse_error_unexpected_token_with_span() {
    let span = Span::new(3, 5, 1);
    let err = ParseError::UnexpectedToken {
        message: "bad token".to_string(),
        span: Some(span),
    };
    assert_eq!(err.display(), "3:5: parse error: bad token");
    assert_eq!(
        err.format_with_file("x.vc"),
        "x.vc:3:5: parse error: bad token"
    );
}

#[test]
fn test_parse_mixed_literals() {
    let source = "42 0b1010 0xaa /* comment */";
    let mut lexer = Lexer::new(source);
    let tokens = lexer.tokenize().unwrap();
    let mut parser = Parser::new(tokens);
    let ast = parser.parse().unwrap();

    match ast {
        AstNode::Program(nodes) => {
            assert_eq!(nodes.len(), 4);
            assert!(matches!(
                nodes[0],
                AstNode::IntegerLiteral {
                    value: 42,
                    radix: 10,
                    ..
                }
            ));
            assert!(matches!(
                nodes[1],
                AstNode::IntegerLiteral {
                    value: 10,
                    radix: 2,
                    ..
                }
            ));
            assert!(matches!(
                nodes[2],
                AstNode::IntegerLiteral {
                    value: 170,
                    radix: 16,
                    ..
                }
            ));
            assert!(matches!(nodes[3], AstNode::MultiLineComment(_)));
        }
        _ => panic!("Expected Program node"),
    }
}

#[test]
fn test_parse_func_main_empty_body() {
    let mut lexer = Lexer::new("func main() {}");
    let tokens = lexer.tokenize().unwrap();
    let mut parser = Parser::new(tokens);
    let ast = parser.parse().unwrap();
    match ast {
        AstNode::Program(nodes) => {
            assert_eq!(nodes.len(), 1);
            match &nodes[0] {
                AstNode::Function {
                    name,
                    params,
                    return_type,
                    body,
                    ..
                } => {
                    assert_eq!(name, "main");
                    assert!(params.is_empty());
                    assert!(return_type.is_none());
                    assert!(body.is_empty());
                }
                _ => panic!("Expected Function"),
            }
        }
        _ => panic!("Expected Program"),
    }
}

#[test]
fn test_parse_let_assign_var_and_block() {
    let src = "func main() { let x: Int; x = 1; let y = 2; { let z = 3; } }";
    let mut lexer = Lexer::new(src);
    let tokens = lexer.tokenize().unwrap();
    let mut parser = Parser::new(tokens);
    let ast = parser.parse().unwrap();
    let AstNode::Program(nodes) = ast else {
        panic!("expected Program");
    };
    let AstNode::Function { body, .. } = &nodes[0] else {
        panic!("expected Function");
    };
    assert!(matches!(body[0], AstNode::Let { .. }));
    assert!(matches!(body[1], AstNode::Assign { .. }));
    assert!(matches!(body[2], AstNode::Let { .. }));
    assert!(matches!(body[3], AstNode::Block { .. }));
}

#[test]
fn test_parse_if_optional_else() {
    let src = "func main() { if 1 > 0 { let x: Int = 1; } }";
    let mut lexer = Lexer::new(src);
    let tokens = lexer.tokenize().unwrap();
    let mut parser = Parser::new(tokens);
    let ast = parser.parse().unwrap();
    let AstNode::Program(nodes) = ast else {
        panic!("Program");
    };
    let AstNode::Function { body, .. } = &nodes[0] else {
        panic!("Function");
    };
    let AstNode::If {
        then_body,
        else_body,
        ..
    } = &body[0]
    else {
        panic!("If");
    };
    assert!(else_body.is_none());
    assert_eq!(then_body.len(), 1);
}

#[test]
fn test_parse_if_else_blocks() {
    let src = "func main() { if false { } else { } }";
    let mut lexer = Lexer::new(src);
    let tokens = lexer.tokenize().unwrap();
    let mut parser = Parser::new(tokens);
    let ast = parser.parse().unwrap();
    let AstNode::Program(nodes) = ast else {
        panic!("Program");
    };
    let AstNode::Function { body, .. } = &nodes[0] else {
        panic!("Function");
    };
    let AstNode::If { else_body, .. } = &body[0] else {
        panic!("If");
    };
    assert!(else_body.is_some());
}

#[test]
fn test_parse_if_else_if_chain() {
    let src = "func main() { if false { let x: Int = 1; } else if true { let y: Int = 2; } }";
    let mut lexer = Lexer::new(src);
    let tokens = lexer.tokenize().unwrap();
    let mut parser = Parser::new(tokens);
    let ast = parser.parse().unwrap();

    let AstNode::Program(nodes) = ast else {
        panic!("Program");
    };
    let AstNode::Function { body, .. } = &nodes[0] else {
        panic!("Function");
    };

    let AstNode::If {
        then_body: _,
        else_body,
        ..
    } = &body[0]
    else {
        panic!("If");
    };

    let else_body = else_body.as_ref().expect("else_body");
    assert_eq!(else_body.len(), 1);

    // `else if ...` should be parsed as `else { if ... { ... } }`
    let AstNode::If { else_body: nested_else, .. } = &else_body[0] else {
        panic!("nested if");
    };

    assert!(nested_else.is_none());
}

#[test]
fn test_parse_if_else_if_with_final_else() {
    let src = "func main() { if false { } else if true { } else { } }";
    let mut lexer = Lexer::new(src);
    let tokens = lexer.tokenize().unwrap();
    let mut parser = Parser::new(tokens);
    let ast = parser.parse().unwrap();

    let AstNode::Program(nodes) = ast else {
        panic!("Program");
    };
    let AstNode::Function { body, .. } = &nodes[0] else {
        panic!("Function");
    };

    let AstNode::If { else_body, .. } = &body[0] else {
        panic!("If");
    };

    let else_body = else_body.as_ref().expect("else_body");
    assert_eq!(else_body.len(), 1);

    let AstNode::If { else_body: nested_else, .. } = &else_body[0] else {
        panic!("nested if");
    };

    assert!(nested_else.is_some());
}

#[test]
fn test_parse_while_break_continue_compound_assign() {
    let src = "func main() { while true { break; continue; } let a: Int = 1; a += 2; }";
    let mut lexer = Lexer::new(src);
    let tokens = lexer.tokenize().unwrap();
    let mut parser = Parser::new(tokens);
    let ast = parser.parse().unwrap();
    let AstNode::Program(nodes) = ast else {
        panic!("Program");
    };
    let AstNode::Function { body, .. } = &nodes[0] else {
        panic!("Function");
    };
    assert!(matches!(body[0], AstNode::While { .. }));
    assert!(matches!(body[1], AstNode::Let { .. }));
    let AstNode::CompoundAssign { op, .. } = &body[2] else {
        panic!("expected compound assign, got {:?}", body[2]);
    };
    assert_eq!(*op, CompoundOp::Add);
}

#[test]
fn test_bitwise_and_tighter_than_or() {
    let src = "func main() { let _ = 1 | 2 & 3; }";
    let mut lexer = Lexer::new(src);
    let tokens = lexer.tokenize().unwrap();
    let mut parser = Parser::new(tokens);
    let ast = parser.parse().unwrap();
    let AstNode::Program(nodes) = ast else {
        panic!("Program");
    };
    let AstNode::Function { body, .. } = &nodes[0] else {
        panic!("Function");
    };
    let AstNode::Let { initializer: Some(init), .. } = &body[0] else {
        panic!("let");
    };
    let AstNode::BinaryOp {
        op: BinaryOp::BitOr,
        right,
        ..
    } = init.as_ref()
    else {
        panic!("expected | at root, got {:?}", init);
    };
    assert!(matches!(
        right.as_ref(),
        AstNode::BinaryOp {
            op: BinaryOp::BitAnd,
            ..
        }
    ));
}

#[test]
fn test_tuple_pattern_rejects_two_rests() {
    let src = "func main() { let (a, .., .., b) = (1, 2, 3, 4); }";
    let mut lexer = Lexer::new(src);
    let tokens = lexer.tokenize().unwrap();
    let mut parser = Parser::new(tokens);
    let err = parser.parse().unwrap_err();
    assert!(
        err.display().contains("..") || format!("{err:?}").contains(".."),
        "{err:?}"
    );
}

#[test]
fn test_parse_top_level_let_requires_initializer() {
    let src = "let x: Int;\nfunc main() {}";
    let mut lexer = Lexer::new(src);
    let tokens = lexer.tokenize().unwrap();
    let mut parser = Parser::new(tokens);
    let err = parser.parse().unwrap_err();
    assert!(
        err.display().contains("initializer") || format!("{err:?}").contains("initializer"),
        "{err:?}"
    );
}

#[test]
fn test_parse_func_main_with_comment_in_body() {
    let src = "func main() {\n    // nothing\n}";
    let mut lexer = Lexer::new(src);
    let tokens = lexer.tokenize().unwrap();
    let mut parser = Parser::new(tokens);
    let ast = parser.parse().unwrap();
    match ast {
        AstNode::Program(nodes) => {
            assert_eq!(nodes.len(), 1);
            match &nodes[0] {
                AstNode::Function {
                    name,
                    params,
                    return_type,
                    body,
                    ..
                } => {
                    assert_eq!(name, "main");
                    assert!(params.is_empty());
                    assert!(return_type.is_none());
                    assert_eq!(body.len(), 1);
                    assert!(matches!(
                        &body[0],
                        AstNode::SingleLineComment(s) if s == " nothing"
                    ));
                }
                _ => panic!("Expected Function"),
            }
        }
        _ => panic!("Expected Program"),
    }
}

#[test]
fn test_parse_internal_print_declaration() {
    let src = "internal func print(s: String);";
    let mut lexer = Lexer::new(src);
    let tokens = lexer.tokenize().unwrap();
    let mut parser = Parser::new(tokens);
    let ast = parser.parse().unwrap();
    match ast {
        AstNode::Program(nodes) => {
            assert_eq!(nodes.len(), 1);
            match &nodes[0] {
                AstNode::InternalFunction {
                    name,
                    params,
                    return_type,
                    ..
                } => {
                    assert_eq!(name, "print");
                    assert_eq!(params.len(), 1);
                    assert_eq!(params[0].name, "s");
                    assert_eq!(named_type_name(&params[0].ty), Some("String"));
                    assert!(return_type.is_none());
                }
                _ => panic!("expected InternalFunction"),
            }
        }
        _ => panic!("expected Program"),
    }
}

#[test]
fn test_parse_call_hello_world() {
    let src = r#"print("Hello, world!");"#;
    let mut lexer = Lexer::new(src);
    let tokens = lexer.tokenize().unwrap();
    let mut parser = Parser::new(tokens);
    let ast = parser.parse().unwrap();
    match ast {
        AstNode::Program(nodes) => {
            assert_eq!(nodes.len(), 1);
            match &nodes[0] {
                AstNode::Call {
                    callee,
                    arguments,
                    ..
                } => {
                    assert_eq!(callee, "print");
                    assert_eq!(arguments.len(), 1);
                    match &arguments[0] {
                        CallArg::Positional(AstNode::StringLiteral {
                            value,
                            original,
                            ..
                        }) => {
                            assert_eq!(value, "Hello, world!");
                            assert_eq!(original, "\"Hello, world!\"");
                        }
                        _ => panic!("expected string arg"),
                    }
                }
                _ => panic!("expected Call"),
            }
        }
        _ => panic!("expected Program"),
    }
}

#[test]
fn test_internal_function_with_body_is_rejected() {
    let src = "internal func f() { }";
    let mut lexer = Lexer::new(src);
    let tokens = lexer.tokenize().unwrap();
    let mut parser = Parser::new(tokens);
    let err = parser.parse().unwrap_err();
    assert!(
        err.display().contains('`') || err.display().contains("expected"),
        "{}",
        err.display()
    );
    match err {
        ParseError::UnexpectedToken { message, .. } => {
            assert!(message.contains(';') || message.contains("{"));
        }
        _ => {}
    }
}

#[test]
fn test_internal_inside_function_is_rejected() {
    let src = "func main() { internal func x(); }";
    let mut lexer = Lexer::new(src);
    let tokens = lexer.tokenize().unwrap();
    let mut parser = Parser::new(tokens);
    let err = parser.parse().unwrap_err();
    assert!(err.display().contains("internal"));
}

#[test]
fn test_parse_internal_with_return_type() {
    let src = "internal func read_int(): Int;";
    let mut lexer = Lexer::new(src);
    let tokens = lexer.tokenize().unwrap();
    let mut parser = Parser::new(tokens);
    let ast = parser.parse().unwrap();
    match ast {
        AstNode::Program(nodes) => {
            match &nodes[0] {
                AstNode::InternalFunction {
                    name,
                    params,
                    return_type,
                    ..
                } => {
                    assert_eq!(name, "read_int");
                    assert!(params.is_empty());
                    assert_eq!(return_type.as_ref().and_then(named_type_name), Some("Int"));
                }
                _ => panic!("expected internal"),
            }
        }
        _ => panic!("expected Program"),
    }
}

#[test]
fn test_parse_internal_print_int() {
    let src = "internal func print_int(v: Int);";
    let mut lexer = Lexer::new(src);
    let tokens = lexer.tokenize().unwrap();
    let mut parser = Parser::new(tokens);
    let ast = parser.parse().unwrap();
    match ast {
        AstNode::Program(nodes) => {
            match &nodes[0] {
                AstNode::InternalFunction {
                    name,
                    params,
                    return_type,
                    ..
                } => {
                    assert_eq!(name, "print_int");
                    assert_eq!(params.len(), 1);
                    assert_eq!(params[0].name, "v");
                    assert_eq!(named_type_name(&params[0].ty), Some("Int"));
                    assert!(return_type.is_none());
                }
                _ => panic!("expected internal"),
            }
        }
        _ => panic!("expected Program"),
    }
}

#[test]
fn test_parse_func_with_return_type_and_return_add() {
    let src = "func add(a: Int, b: Int): Int {\n    return a + b;\n}";
    let mut lexer = Lexer::new(src);
    let tokens = lexer.tokenize().unwrap();
    let mut parser = Parser::new(tokens);
    let ast = parser.parse().unwrap();
    match ast {
        AstNode::Program(nodes) => {
            assert_eq!(nodes.len(), 1);
            let AstNode::Function {
                name,
                params,
                return_type,
                body,
                ..
            } = &nodes[0]
            else {
                panic!("expected Function");
            };
            assert_eq!(name, "add");
            assert_eq!(params.len(), 2);
            assert_eq!(params[0].name, "a");
            assert_eq!(named_type_name(&params[0].ty), Some("Int"));
            assert_eq!(params[1].name, "b");
            assert_eq!(named_type_name(&params[1].ty), Some("Int"));
            assert_eq!(return_type.as_ref().and_then(named_type_name), Some("Int"));
            assert_eq!(body.len(), 1);
            match &body[0] {
                AstNode::Return { value: Some(v), .. } => match v.as_ref() {
                    AstNode::BinaryOp { left, op, right, .. } => {
                        assert_eq!(*op, BinaryOp::Add);
                        assert!(matches!(
                            left.as_ref(),
                            AstNode::Identifier { name, .. } if name == "a"
                        ));
                        assert!(matches!(
                            right.as_ref(),
                            AstNode::Identifier { name, .. } if name == "b"
                        ));
                    }
                    _ => panic!("expected binary op"),
                },
                _ => panic!("expected return with value"),
            }
        }
        _ => panic!("expected Program"),
    }
}

#[test]
fn test_parse_nested_call_print_int_add() {
    let src = "func main() {\n    print_int(add(2, 3));\n}";
    let mut lexer = Lexer::new(src);
    let tokens = lexer.tokenize().unwrap();
    let mut parser = Parser::new(tokens);
    let ast = parser.parse().unwrap();
    match ast {
        AstNode::Program(nodes) => {
            let AstNode::Function { body, .. } = &nodes[0] else {
                panic!("expected Function");
            };
            assert_eq!(body.len(), 1);
            match &body[0] {
                AstNode::Call {
                    callee,
                    arguments,
                    ..
                } => {
                    assert_eq!(callee, "print_int");
                    assert_eq!(arguments.len(), 1);
                    match &arguments[0] {
                        CallArg::Positional(AstNode::Call {
                            callee: inner,
                            arguments: inner_args,
                            ..
                        }) => {
                            assert_eq!(inner, "add");
                            assert_eq!(inner_args.len(), 2);
                            assert!(matches!(
                                &inner_args[0],
                                CallArg::Positional(AstNode::IntegerLiteral { value: 2, .. })
                            ));
                            assert!(matches!(
                                &inner_args[1],
                                CallArg::Positional(AstNode::IntegerLiteral { value: 3, .. })
                            ));
                        }
                        _ => panic!("expected inner call"),
                    }
                }
                _ => panic!("expected call"),
            }
        }
        _ => panic!("expected Program"),
    }
}

#[test]
fn type_expressions_parse_from_source_text() {
    let te = Parser::parse_type_expr_from_source("Option<[Int]>").expect("type");
    match te {
        TypeExpr::EnumApp { name, args } => {
            assert_eq!(name, "Option");
            assert_eq!(args.len(), 1);
            assert!(matches!(&args[0], TypeExpr::Array(inner) if named_type_name(inner) == Some("Int")));
        },
        other => panic!("unexpected {other:?}"),
    }
    assert!(matches!(Parser::parse_type_expr_from_source("()"), Ok(TypeExpr::Unit)));
    assert!(Parser::parse_type_expr_from_source("Int Int").is_err());
    assert!(Parser::parse_type_expr_from_source("\"open").is_err());
}

#[test]
fn tokens_carry_the_file_they_came_from() {
    let tokens = Lexer::new_with_file("x", "main.vc").tokenize().expect("lex");
    assert_eq!(tokens[0].span.file, Some("main.vc"));
    assert!(matches!(tokens.last().map(|t| &t.kind), Some(TokenKind::Eof)));
}

fn named(n: &str) -> TypeExpr {
    TypeExpr::Named(n.to_string())
}

#[test]
fn type_grammar_parenthesised_forms() {
    assert_eq!(Parser::parse_type_expr_from_source("(Int)").unwrap(), named("Int"));
    assert_eq!(Parser::parse_type_expr_from_source("(Int,)").unwrap(), named("Int"));
    assert_eq!(
        Parser::parse_type_expr_from_source("(Int, String,)").unwrap(),
        TypeExpr::Tuple(vec![named("Int"), named("String")])
    );
    assert_eq!(
        Parser::parse_type_expr_from_source("() => Int").unwrap(),
        TypeExpr::Function { params: vec![], ret: Box::new(named("Int")) }
    );
    assert_eq!(
        Parser::parse_type_expr_from_source("(x: Int, Bool)").unwrap(),
        TypeExpr::Function {
            params: vec![
                FunctionTypeParam { name: Some("x".to_string()), ty: named("Int"), has_default: false },
                FunctionTypeParam { name: None, ty: named("Bool"), has_default: false },
            ],
            ret: Box::new(TypeExpr::Infer),
        }
    );
    assert!(Parser::parse_type_expr_from_source("(Int; Bool)").is_err());
}

#[test]
fn type_grammar_brackets_names_and_arguments() {
    assert_eq!(
        Parser::parse_type_expr_from_source("[type T]").unwrap(),
        TypeExpr::Array(Box::new(TypeExpr::TypeParam("T".to_string())))
    );
    assert_eq!(
        Parser::parse_type_expr_from_source("Map<String, _>").unwrap(),
        TypeExpr::EnumApp { name: "Map".to_string(), args: vec![named("String"), TypeExpr::Infer] }
    );
    assert_eq!(
        Parser::parse_type_expr_from_source("Empty<>").unwrap(),
        TypeExpr::EnumApp { name: "Empty".to_string(), args: vec![] }
    );
    assert_eq!(Parser::parse_type_expr_from_source("type T").unwrap(), TypeExpr::TypeParam("T".to_string()));
    assert!(Parser::parse_type_expr_from_source("[Int").is_err());
    assert!(Parser::parse_type_expr_from_source("Map<Int Int>").is_err());
    assert!(Parser::parse_type_expr_from_source("1").is_err());
}

#[test]
fn empty_token_list_parses_to_empty_program() {
    let mut parser = Parser::new(vec![]);
    match parser.parse() {
        Ok(AstNode::Program(items)) => assert!(items.is_empty()),
        other => panic!("expected an empty program, got {:?}", other),
    }
}

#[test]
fn internal_inside_function_error_points_at_the_word() {
    let tokens = Lexer::new("func main() { internal func x(); }").tokenize().unwrap();
    match Parser::new(tokens).parse() {
        Err(ParseError::UnexpectedToken { message, span }) => {
            assert!(message.contains("`internal` functions must be declared at the top level"));
            assert_eq!(span, Some(Span::new(1, 15, 8)));
        }
        other => panic!("expected an unexpected-token error, got {:?}", other),
    }
}

#[test]
fn trailing_tokens_after_a_type_are_reported() {
    match Parser::parse_type_expr_from_source("Int Int") {
        Err(ParseError::UnexpectedToken { message, span }) => {
            assert_eq!(message, "expected end of type expression");
            assert_eq!(span, Some(Span::new(1, 5, 3)));
        }
        other => panic!("expected an unexpected-token error, got {:?}", other),
    }
}

#[test]
fn top_level_let_without_initializer_points_at_let() {
    let tokens = Lexer::new("let x: Int;\nfunc main() {}").tokenize().unwrap();
    match Parser::new(tokens).parse() {
        Err(ParseError::UnexpectedToken { message, span }) => {
            assert_eq!(message, "top-level `let` must have an initializer");
            assert_eq!(span, Some(Span::new(1, 1, 3)));
        }
        other => panic!("expected an unexpected-token error, got {:?}", other),
    }
}

#[test]
fn fat_arrow_shorthand_points_at_the_arrow() {
    let tokens = Lexer::new("\nfunc inc(x: Int): Int => x + 1;\nfunc main() {}\n").tokenize().unwrap();
    match Parser::new(tokens).parse() {
        Err(ParseError::UnexpectedToken { message, span }) => {
            assert_eq!(message, "function shorthand now uses `=`; use `func name(args) = expr;`");
            assert_eq!(span, Some(Span::new(2, 23, 2)));
        }
        other => panic!("expected an unexpected-token error, got {:?}", other),
    }
}

#[test]
fn parameter_after_params_points_at_its_name() {
    let tokens = Lexer::new("func bad(params a: [Int], b: Int) {}").tokenize().unwrap();
    match Parser::new(tokens).parse() {
        Err(ParseError::UnexpectedToken { message, span }) => {
            assert_eq!(message, "`params` parameter must be the last parameter");
            assert_eq!(span, Some(Span::new(1, 27, 1)));
        }
        other => panic!("expected an unexpected-token error, got {:?}", other),
    }
}

#[test]
fn clone_of_a_parsed_program_equals_it() {
    let src = "import { a as b } from \"m\";\nfunc id<T>(x: T, params r: [Int]): T { if x { return x; } else { let (p, ..) = (1, 2); } }\nlet g = id<Int>(1, 2);";
    let ast = Parser::new(Lexer::new(src).tokenize().unwrap()).parse().unwrap();
    assert_eq!(ast.clone(), ast);
}

#[test]
fn suffixes_build_member_accesses_method_calls_and_indexing() {
    let src = "func main() {\n    let v = a.b.c(x, n: 1)[2].0;\n}";
    let tokens = Lexer::new(src).tokenize().unwrap();
    let ast = Parser::new(tokens).parse().unwrap();
    let AstNode::Program(nodes) = ast else {
        panic!("expected Program");
    };
    let AstNode::Function { body, .. } = &nodes[0] else {
        panic!("expected Function");
    };
    let AstNode::Let { initializer: Some(init), .. } = &body[0] else {
        panic!("expected let");
    };
    let AstNode::TupleField { base, index: 0, .. } = &**init else {
        panic!("expected tuple field access");
    };
    let AstNode::ArrayIndex { base, index, .. } = &**base else {
        panic!("expected indexing");
    };
    assert!(matches!(&**index, AstNode::IntegerLiteral { value: 2, .. }));
    let AstNode::MethodCall { receiver, method, arguments, .. } = &**base else {
        panic!("expected method call");
    };
    assert_eq!(method, "c");
    assert_eq!(arguments.len(), 2);
    assert!(matches!(&arguments[0], CallArg::Positional(AstNode::Identifier { name, .. }) if name == "x"));
    assert!(matches!(
        &arguments[1],
        CallArg::Named { name, value: AstNode::IntegerLiteral { value: 1, .. }, .. } if name == "n"
    ));
    let AstNode::FieldAccess { base, field, .. } = &**receiver else {
        panic!("expected field access");
    };
    assert_eq!(field, "b");
    assert!(matches!(&**base, AstNode::Identifier { name, .. } if name == "a"));
}

#[test]
fn tuple_and_array_literals_keep_their_elements_in_order() {
    let src = "func main() {\n    let t = (1, [x, 2], \"s\");\n}";
    let tokens = Lexer::new(src).tokenize().unwrap();
    let ast = Parser::new(tokens).parse().unwrap();
    let AstNode::Program(nodes) = ast else {
        panic!("expected Program");
    };
    let AstNode::Function { body, .. } = &nodes[0] else {
        panic!("expected Function");
    };
    let AstNode::Let { initializer: Some(init), .. } = &body[0] else {
        panic!("expected let");
    };
    let AstNode::TupleLiteral { elements, .. } = &**init else {
        panic!("expected tuple literal");
    };
    assert_eq!(elements.len(), 3);
    assert!(matches!(&elements[0], AstNode::IntegerLiteral { value: 1, .. }));
    assert!(matches!(&elements[2], AstNode::StringLiteral { value, .. } if value == "s"));
    let AstNode::ArrayLiteral { elements: items, .. } = &elements[1] else {
        panic!("expected array literal");
    };
    assert_eq!(items.len(), 2);
    assert!(matches!(&items[0], AstNode::Identifier { name, .. } if name == "x"));
    assert!(matches!(&items[1], AstNode::IntegerLiteral { value: 2, .. }));
}
