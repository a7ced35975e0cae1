use vibelang::ast::{AstNode, BinaryOp, CallArg, CompoundOp, LambdaBody, Pattern, PatternElem, TypeExpr, UnaryOp};
use vibelang::error::{ParseError, Span};
use vibelang::lexer::{Lexer, TokenKind};
use vibelang::parser::Parser;

fn parse_expr_via_return(expr_src: &str) -> AstNode {
    let src = format!("func __probe() {{ return {expr_src}; }}");
    let mut lexer = Lexer::new(&src);
    let tokens = lexer.tokenize().expect("lex");
    let mut parser = Parser::new(tokens);
    let ast = parser.parse().expect("parse");
    let AstNode::Program(nodes) = ast else {
        panic!("Program");
    };
    let AstNode::Function { body, .. } = &nodes[0] else {
        panic!("Function");
    };
    let AstNode::Return { value: Some(v), .. } = &body[0] else {
        panic!("Return");
    };
    v.as_ref().clone()
}

#[test]
fn lexer_emits_arithmetic_and_tilde_tokens() {
    let mut lexer = Lexer::new("- * / % ~ +");
    let kinds: Vec<_> = lexer.tokenize().unwrap().into_iter().map(|t| t.kind).collect();
    assert!(matches!(kinds[0], TokenKind::Minus));
    assert!(matches!(kinds[1], TokenKind::Star));
    assert!(matches!(kinds[2], TokenKind::Slash));
    assert!(matches!(kinds[3], TokenKind::Percent));
    assert!(matches!(kinds[4], TokenKind::Tilde));
    assert!(matches!(kinds[5], TokenKind::Plus));
}

#[test]
fn prec_mul_before_add() {
    let e = parse_expr_via_return("1 + 2 * 3");
    match e {
        AstNode::BinaryOp {
            op: BinaryOp::Add,
            left,
            right,
            ..
        } => {
            assert!(matches!(*left, AstNode::IntegerLiteral { value: 1, .. }));
            match *right {
                AstNode::BinaryOp {
                    op: BinaryOp::Mul,
                    ref left,
                    ref right,
                    ..
                } => {
                    assert!(matches!(
                        **left,
                        AstNode::IntegerLiteral { value: 2, .. }
                    ));
                    assert!(matches!(
                        **right,
                        AstNode::IntegerLiteral { value: 3, .. }
                    ));
                }
                _ => panic!("right"),
            }
        }
        _ => panic!("root"),
    }
}

#[test]
fn prec_doc_example_12() {
    let e = parse_expr_via_return("1 + 2 * -3 + 17");
    match e {
        AstNode::BinaryOp {
            op: BinaryOp::Add,
            left,
            right, ..
        } => {
            match *left {
                AstNode::BinaryOp {
                    op: BinaryOp::Add,
                    left: l,
                    right: r, ..
                } => {
                    assert!(matches!(*l, AstNode::IntegerLiteral { value: 1, .. }));
                    match *r {
                        AstNode::BinaryOp {
                            op: BinaryOp::Mul,
                            left: a,
                            right: b,
                            ..
                        } => {
                            assert!(matches!(*a, AstNode::IntegerLiteral { value: 2, .. }));
                            match *b {
                                AstNode::UnaryOp {
                                    op: UnaryOp::Minus,
                                    operand,
                                    ..
                                } => {
                                    assert!(matches!(
                                        *operand,
                                        AstNode::IntegerLiteral { value: 3, .. }
                                    ));
                                }
                                _ => panic!("unary -3"),
                            }
                        }
                        _ => panic!("2*-3"),
                    }
                }
                _ => panic!("left +"),
            }
            assert!(matches!(
                *right,
                AstNode::IntegerLiteral { value: 17, .. }
            ));
        }
        _ => panic!("root"),
    }
}

#[test]
fn prec_parens_multiply() {
    let e = parse_expr_via_return("(1 + 2) * (3 + 4)");
    match e {
        AstNode::BinaryOp {
            op: BinaryOp::Mul,
            left,
            right, ..
        } => {
            match *left {
                AstNode::BinaryOp {
                    op: BinaryOp::Add,
                    left: a,
                    right: b, ..
                } => {
                    assert!(matches!(*a, AstNode::IntegerLiteral { value: 1, .. }));
                    assert!(matches!(*b, AstNode::IntegerLiteral { value: 2, .. }));
                }
                _ => panic!("1+2"),
            }
            match *right {
                AstNode::BinaryOp {
                    op: BinaryOp::Add,
                    left: a,
                    right: b, ..
                } => {
                    assert!(matches!(*a, AstNode::IntegerLiteral { value: 3, .. }));
                    assert!(matches!(*b, AstNode::IntegerLiteral { value: 4, .. }));
                }
                _ => panic!("3+4"),
            }
        }
        _ => panic!("root"),
    }
}

#[test]
fn additive_left_associative() {
    let e = parse_expr_via_return("10 - 3 - 2");
    match e {
        AstNode::BinaryOp {
            op: BinaryOp::Sub,
            left,
            right, ..
        } => {
            match *left {
                AstNode::BinaryOp {
                    op: BinaryOp::Sub,
                    left: a,
                    right: b, ..
                } => {
                    assert!(matches!(*a, AstNode::IntegerLiteral { value: 10, .. }));
                    assert!(matches!(*b, AstNode::IntegerLiteral { value: 3, .. }));
                }
                _ => panic!("10-3"),
            }
            assert!(matches!(
                *right,
                AstNode::IntegerLiteral { value: 2, .. }
            ));
        }
        _ => panic!("root"),
    }
}

#[test]
fn multiplicative_left_associative() {
    let e = parse_expr_via_return("24 / 4 / 2");
    match e {
        AstNode::BinaryOp {
            op: BinaryOp::Div,
            left,
            right, ..
        } => {
            match *left {
                AstNode::BinaryOp {
                    op: BinaryOp::Div,
                    left: a,
                    right: b, ..
                } => {
                    assert!(matches!(*a, AstNode::IntegerLiteral { value: 24, .. }));
                    assert!(matches!(*b, AstNode::IntegerLiteral { value: 4, .. }));
                }
                _ => panic!("24/4"),
            }
            assert!(matches!(
                *right,
                AstNode::IntegerLiteral { value: 2, .. }
            ));
        }
        _ => panic!("root"),
    }
}

#[test]
fn unary_minus_literal() {
    let e = parse_expr_via_return("-4");
    match e {
        AstNode::UnaryOp {
            op: UnaryOp::Minus,
            operand, ..
        } => {
            assert!(matches!(
                *operand,
                AstNode::IntegerLiteral { value: 4, .. }
            ));
        }
        _ => panic!("unary -"),
    }
}

#[test]
fn unary_plus_literal() {
    let e = parse_expr_via_return("+5");
    match e {
        AstNode::UnaryOp {
            op: UnaryOp::Plus,
            operand, ..
        } => {
            assert!(matches!(
                *operand,
                AstNode::IntegerLiteral { value: 5, .. }
            ));
        }
        _ => panic!("unary +"),
    }
}

#[test]
fn unary_tilde_literal() {
    let e = parse_expr_via_return("~0");
    match e {
        AstNode::UnaryOp {
            op: UnaryOp::BitNot,
            operand, ..
        } => {
            assert!(matches!(
                *operand,
                AstNode::IntegerLiteral { value: 0, .. }
            ));
        }
        _ => panic!("~"),
    }
}

#[test]
fn unary_chain_tilde_then_neg() {
    let e = parse_expr_via_return("~-1");
    match e {
        AstNode::UnaryOp {
            op: UnaryOp::BitNot,
            operand, ..
        } => {
            match *operand {
                AstNode::UnaryOp {
                    op: UnaryOp::Minus,
                    operand: inner, ..
                } => {
                    assert!(matches!(
                        *inner,
                        AstNode::IntegerLiteral { value: 1, .. }
                    ));
                }
                _ => panic!("inner -1"),
            }
        }
        _ => panic!("~-1"),
    }
}

#[test]
fn unary_double_minus() {
    let e = parse_expr_via_return("--1");
    match e {
        AstNode::UnaryOp {
            op: UnaryOp::Minus,
            operand, ..
        } => {
            match *operand {
                AstNode::UnaryOp {
                    op: UnaryOp::Minus,
                    operand: inner, ..
                } => {
                    assert!(matches!(
                        *inner,
                        AstNode::IntegerLiteral { value: 1, .. }
                    ));
                }
                _ => panic!("inner"),
            }
        }
        _ => panic!("--"),
    }
}

#[test]
fn string_concat_same_precedence_as_add() {
    let e = parse_expr_via_return("\"a\" + \"b\" + \"c\"");
    match e {
        AstNode::BinaryOp {
            op: BinaryOp::Add,
            left,
            right, ..
        } => {
            match *left {
                AstNode::BinaryOp {
                    op: BinaryOp::Add,
                    left: a,
                    right: b, ..
                } => {
                    assert!(matches!(
                        *a,
                        AstNode::StringLiteral { ref value, .. } if value == "a"
                    ));
                    assert!(matches!(
                        *b,
                        AstNode::StringLiteral { ref value, .. } if value == "b"
                    ));
                }
                _ => panic!("a+b"),
            }
            assert!(matches!(
                *right,
                AstNode::StringLiteral { ref value, .. } if value == "c"
            ));
        }
        _ => panic!("root"),
    }
}

#[test]
fn mod_div_mul_precedence() {
    let e = parse_expr_via_return("10 + 9 % 3 * 2");
    match e {
        AstNode::BinaryOp {
            op: BinaryOp::Add,
            left,
            right, ..
        } => {
            assert!(matches!(*left, AstNode::IntegerLiteral { value: 10, .. }));
            match *right {
                AstNode::BinaryOp {
                    op: BinaryOp::Mul,
                    left: l,
                    right: r, ..
                } => {
                    assert!(matches!(
                        *l,
                        AstNode::BinaryOp {
                            op: BinaryOp::Mod,
                            ..
                        }
                    ));
                    assert!(matches!(
                        *r,
                        AstNode::IntegerLiteral { value: 2, .. }
                    ));
                }
                _ => panic!("right"),
            }
        }
        _ => panic!("root"),
    }
}

#[test]
fn call_with_binary_arguments() {
    let src = "func f() { return g(1 + 2, 3 * 4); }";
    let mut lexer = Lexer::new(src);
    let tokens = lexer.tokenize().unwrap();
    let mut parser = Parser::new(tokens);
    let ast = parser.parse().unwrap();
    let AstNode::Program(nodes) = ast else {
        panic!();
    };
    let AstNode::Function { body, .. } = &nodes[0] else {
        panic!();
    };
    let AstNode::Return { value: Some(v), .. } = &body[0] else {
        panic!();
    };
    match v.as_ref() {
        AstNode::Call {
            callee,
            arguments, ..
        } => {
            assert_eq!(callee, "g");
            assert_eq!(arguments.len(), 2);
            assert!(matches!(
                &arguments[0],
                CallArg::Positional(AstNode::BinaryOp {
                    op: BinaryOp::Add,
                    ..
                })
            ));
            assert!(matches!(
                &arguments[1],
                CallArg::Positional(AstNode::BinaryOp {
                    op: BinaryOp::Mul,
                    ..
                })
            ));
        }
        _ => panic!("call"),
    }
}

#[test]
fn unary_minus_before_call() {
    let src = "func f() { return -neg(1); }";
    let mut lexer = Lexer::new(src);
    let tokens = lexer.tokenize().unwrap();
    let mut parser = Parser::new(tokens);
    let ast = parser.parse().unwrap();
    let AstNode::Program(nodes) = ast else {
        panic!();
    };
    let AstNode::Function { body, .. } = &nodes[0] else {
        panic!();
    };
    let AstNode::Return { value: Some(v), .. } = &body[0] else {
        panic!();
    };
    match v.as_ref() {
        AstNode::UnaryOp {
            op: UnaryOp::Minus,
            operand, ..
        } => {
            assert!(matches!(
                operand.as_ref(),
                AstNode::Call {
                    callee,
                    ..
                } if callee == "neg"
            ));
        }
        _ => panic!("-call"),
    }
}

#[test]
fn priority_chains_from_example4() {
    let e = parse_expr_via_return("(1 + 2) * (-3 + 17)");
    match e {
        AstNode::BinaryOp {
            op: BinaryOp::Mul,
            left,
            right, ..
        } => {
            assert!(matches!(
                *left,
                AstNode::BinaryOp {
                    op: BinaryOp::Add,
                    ..
                }
            ));
            assert!(matches!(
                *right,
                AstNode::BinaryOp {
                    op: BinaryOp::Add,
                    ..
                }
            ));
        }
        _ => panic!("(1+2)*(-3+17)"),
    }
}

#[test]
fn unary_minus_string_concat_not_allowed_as_sub() {
    let e = parse_expr_via_return("\"x\" + -1");
    match e {
        AstNode::BinaryOp {
            op: BinaryOp::Add,
            left,
            right, ..
        } => {
            assert!(matches!(
                *left,
                AstNode::StringLiteral { ref value, .. } if value == "x"
            ));
            match *right {
                AstNode::UnaryOp {
                    op: UnaryOp::Minus,
                    operand, ..
                } => {
                    assert!(matches!(
                        *operand,
                        AstNode::IntegerLiteral { value: 1, .. }
                    ));
                }
                _ => panic!("-1"),
            }
        }
        _ => panic!("concat"),
    }
}

#[test]
fn parens_only_inner() {
    let e = parse_expr_via_return("(((42)))");
    assert!(matches!(
        e,
        AstNode::IntegerLiteral { value: 42, .. }
    ));
}

#[test]
fn mul_sub_combo() {
    let e = parse_expr_via_return("6 * 2 - 1");
    match e {
        AstNode::BinaryOp {
            op: BinaryOp::Sub,
            left,
            right, ..
        } => {
            assert!(matches!(
                *left,
                AstNode::BinaryOp {
                    op: BinaryOp::Mul,
                    ..
                }
            ));
            assert!(matches!(
                *right,
                AstNode::IntegerLiteral { value: 1, .. }
            ));
        }
        _ => panic!("6*2-1"),
    }
}

#[test]
fn percent_add_precedence() {
    let e = parse_expr_via_return("10 % 3 + 1");
    match e {
        AstNode::BinaryOp {
            op: BinaryOp::Add,
            left,
            right, ..
        } => {
            assert!(matches!(
                *left,
                AstNode::BinaryOp {
                    op: BinaryOp::Mod,
                    ..
                }
            ));
            assert!(matches!(
                *right,
                AstNode::IntegerLiteral { value: 1, .. }
            ));
        }
        _ => panic!("10%3+1"),
    }
}

#[test]
fn unary_double_tilde() {
    let e = parse_expr_via_return("~~1");
    match e {
        AstNode::UnaryOp {
            op: UnaryOp::BitNot,
            operand, ..
        } => {
            match *operand {
                AstNode::UnaryOp {
                    op: UnaryOp::BitNot,
                    operand: inner, ..
                } => {
                    assert!(matches!(
                        *inner,
                        AstNode::IntegerLiteral { value: 1, .. }
                    ));
                }
                _ => panic!("inner"),
            }
        }
        _ => panic!("~~"),
    }
}

#[test]
fn plus_unary_on_paren_expr() {
    let e = parse_expr_via_return("+(1 + 2)");
    match e {
        AstNode::UnaryOp {
            op: UnaryOp::Plus,
            operand, ..
        } => {
            assert!(matches!(
                *operand,
                AstNode::BinaryOp {
                    op: BinaryOp::Add,
                    ..
                }
            ));
        }
        _ => panic!("+(...)"),
    }
}

#[test]
fn identifier_sub_identifier() {
    let e = parse_expr_via_return("a - b");
    match e {
        AstNode::BinaryOp {
            op: BinaryOp::Sub,
            left,
            right, ..
        } => {
            assert!(matches!(
                *left,
                AstNode::Identifier { name, .. } if name == "a"
            ));
            assert!(matches!(
                *right,
                AstNode::Identifier { name, .. } if name == "b"
            ));
        }
        _ => panic!("a-b"),
    }
}

#[test]
fn identifier_mul_identifier() {
    let e = parse_expr_via_return("a * b");
    match e {
        AstNode::BinaryOp {
            op: BinaryOp::Mul,
            left,
            right, ..
        } => {
            assert!(matches!(
                *left,
                AstNode::Identifier { name, .. } if name == "a"
            ));
            assert!(matches!(
                *right,
                AstNode::Identifier { name, .. } if name == "b"
            ));
        }
        _ => panic!("a*b"),
    }
}

#[test]
fn spaced_operators() {
    let e = parse_expr_via_return("1   +   2   *   3");
    assert!(matches!(
        e,
        AstNode::BinaryOp {
            op: BinaryOp::Add,
            ..
        }
    ));
}

#[test]
fn division_simple() {
    let e = parse_expr_via_return("11 / 3");
    match e {
        AstNode::BinaryOp {
            op: BinaryOp::Div,
            left,
            right, ..
        } => {
            assert!(matches!(
                *left,
                AstNode::IntegerLiteral { value: 11, .. }
            ));
            assert!(matches!(
                *right,
                AstNode::IntegerLiteral { value: 3, .. }
            ));
        }
        _ => panic!("/"),
    }
}

#[test]
fn modulo_simple() {
    let e = parse_expr_via_return("7 % 4");
    match e {
        AstNode::BinaryOp {
            op: BinaryOp::Mod,
            left,
            right, ..
        } => {
            assert!(matches!(
                *left,
                AstNode::IntegerLiteral { value: 7, .. }
            ));
            assert!(matches!(
                *right,
                AstNode::IntegerLiteral { value: 4, .. }
            ));
        }
        _ => panic!("%"),
    }
}

#[test]
fn negated_parenthesized() {
    let e = parse_expr_via_return("-(1 + 2)");
    match e {
        AstNode::UnaryOp {
            op: UnaryOp::Minus,
            operand, ..
        } => {
            assert!(matches!(
                *operand,
                AstNode::BinaryOp {
                    op: BinaryOp::Add,
                    ..
                }
            ));
        }
        _ => panic!("-( )"),
    }
}

#[test]
fn add_mul_sub_chain() {
    let e = parse_expr_via_return("1 + 2 * 3 - 4");
    match e {
        AstNode::BinaryOp {
            op: BinaryOp::Sub,
            left,
            right, ..
        } => {
            assert!(matches!(
                *right,
                AstNode::IntegerLiteral { value: 4, .. }
            ));
            match *left {
                AstNode::BinaryOp {
                    op: BinaryOp::Add,
                    left: a,
                    right: b, ..
                } => {
                    assert!(matches!(*a, AstNode::IntegerLiteral { value: 1, .. }));
                    assert!(matches!(
                        *b,
                        AstNode::BinaryOp {
                            op: BinaryOp::Mul,
                            ..
                        }
                    ));
                }
                _ => panic!("left"),
            }
        }
        _ => panic!("chain"),
    }
}

#[test]
fn tilde_plus_combo() {
    let e = parse_expr_via_return("~+0");
    match e {
        AstNode::UnaryOp {
            op: UnaryOp::BitNot,
            operand, ..
        } => {
            match *operand {
                AstNode::UnaryOp {
                    op: UnaryOp::Plus,
                    operand: inner, ..
                } => {
                    assert!(matches!(
                        *inner,
                        AstNode::IntegerLiteral { value: 0, .. }
                    ));
                }
                _ => panic!("+0"),
            }
        }
        _ => panic!("~+"),
    }
}

#[test]
fn prec_cmp_looser_than_add() {
    let e = parse_expr_via_return("1 > 1 + 1");
    match e {
        AstNode::BinaryOp {
            op: BinaryOp::Gt,
            left,
            right, ..
        } => {
            assert!(matches!(*left, AstNode::IntegerLiteral { value: 1, .. }));
            match *right {
                AstNode::BinaryOp {
                    op: BinaryOp::Add,
                    left: a,
                    right: b, ..
                } => {
                    assert!(matches!(*a, AstNode::IntegerLiteral { value: 1, .. }));
                    assert!(matches!(*b, AstNode::IntegerLiteral { value: 1, .. }));
                }
                _ => panic!("1+1"),
            }
        }
        _ => panic!("root >"),
    }
}

#[test]
fn prec_and_tighter_than_or() {
    let e = parse_expr_via_return("false || true && true");
    match e {
        AstNode::BinaryOp {
            op: BinaryOp::Or,
            left,
            right, ..
        } => {
            assert!(matches!(
                *left,
                AstNode::BoolLiteral { value: false, .. }
            ));
            match *right {
                AstNode::BinaryOp {
                    op: BinaryOp::And,
                    left: a,
                    right: b, ..
                } => {
                    assert!(matches!(
                        *a,
                        AstNode::BoolLiteral { value: true, .. }
                    ));
                    assert!(matches!(
                        *b,
                        AstNode::BoolLiteral { value: true, .. }
                    ));
                }
                _ => panic!("&&"),
            }
        }
        _ => panic!("root ||"),
    }
}

#[test]
fn prec_not_tighter_than_and() {
    let e = parse_expr_via_return("!true && false");
    match e {
        AstNode::BinaryOp {
            op: BinaryOp::And,
            left,
            right, ..
        } => {
            match *left {
                AstNode::UnaryOp {
                    op: UnaryOp::Not,
                    operand, ..
                } => {
                    assert!(matches!(
                        *operand,
                        AstNode::BoolLiteral { value: true, .. }
                    ));
                }
                _ => panic!("!true"),
            }
            assert!(matches!(
                *right,
                AstNode::BoolLiteral { value: false, .. }
            ));
        }
        _ => panic!("root &&"),
    }
}

#[test]
fn eq_same_precedence_chains_left() {
    let e = parse_expr_via_return("0 == 0 == 0");
    match e {
        AstNode::BinaryOp {
            op: BinaryOp::Eq,
            left,
            ..
        } => {
            assert!(matches!(
                *left,
                AstNode::BinaryOp {
                    op: BinaryOp::Eq,
                    ..
                }
            ));
        }
        _ => panic!("== chain"),
    }
}

#[test]
fn parse_default_params_and_named_call() {
    let src = r#"
func foo(a: Int = 1, b: Bool = true) {}
func main() { foo(b: false, a: 7); }
"#;
    let mut lexer = Lexer::new(src);
    let tokens = lexer.tokenize().unwrap();
    let mut parser = Parser::new(tokens);
    let ast = parser.parse().unwrap();
    let AstNode::Program(nodes) = ast else { panic!("program"); };
    let AstNode::Function { params, .. } = &nodes[0] else { panic!("foo"); };
    assert!(params.iter().all(|p| p.default_value.is_some()));
    let AstNode::Function { body, .. } = &nodes[1] else { panic!("main"); };
    let AstNode::Call { arguments, .. } = &body[0] else { panic!("call"); };
    assert!(matches!(&arguments[0], CallArg::Named { name, .. } if name == "b"));
    assert!(matches!(&arguments[1], CallArg::Named { name, .. } if name == "a"));
}

#[test]
fn parse_internal_default_param_is_error() {
    let src = r#"internal func test_func(n: String = "text");"#;
    let mut lexer = Lexer::new(src);
    let tokens = lexer.tokenize().unwrap();
    let mut parser = Parser::new(tokens);
    let err = parser.parse().unwrap_err();
    assert!(
        err.display()
            .contains("internal functions cannot have parameters with default values")
    );
}

#[test]
fn parse_params_parameter_ok() {
    let src = r#"func sum(params numbers: [Int]): Int { return 0; }"#;
    let mut lexer = Lexer::new(src);
    let tokens = lexer.tokenize().unwrap();
    let mut parser = Parser::new(tokens);
    let ast = parser.parse().unwrap();
    let AstNode::Program(nodes) = ast else { panic!("program"); };
    let AstNode::Function { params, .. } = &nodes[0] else { panic!("function"); };
    assert_eq!(params.len(), 1);
    assert!(params[0].is_params);
}

#[test]
fn parse_params_not_last_rejected() {
    let src = r#"func bad(params a: [Int], b: Int) {}"#;
    let mut lexer = Lexer::new(src);
    let tokens = lexer.tokenize().unwrap();
    let mut parser = Parser::new(tokens);
    let err = parser.parse().unwrap_err();
    assert!(err.display().contains("must be the last parameter"));
}

#[test]
fn parse_params_non_array_rejected() {
    let src = r#"func bad(params a: Int) {}"#;
    let mut lexer = Lexer::new(src);
    let tokens = lexer.tokenize().unwrap();
    let mut parser = Parser::new(tokens);
    let err = parser.parse().unwrap_err();
    assert!(err.display().contains("must have array type"));
}

#[test]
fn while_condition_accepts_call_comparison_rhs() {
    let src = r#"
internal func int_array_len(a: [Int]): Int;
func main() {
let idx = 0;
let xs: [Int] = [1, 2, 3];
while idx < int_array_len(xs) {
    idx += 1;
}
}
"#;
    let mut lexer = Lexer::new(src);
    let tokens = lexer.tokenize().unwrap();
    let mut parser = Parser::new(tokens);
    let ast = parser.parse().expect("parse");
    let AstNode::Program(nodes) = ast else { panic!("program"); };
    assert!(!nodes.is_empty());
}
