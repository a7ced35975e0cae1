use vibelang::error::Span;
use vibelang::lexer::{Lexer, TokenKind};

#[test]
fn test_single_line_comment() {
    let mut lexer = Lexer::new("// This is a comment");
    let tokens = lexer.tokenize().unwrap();
    assert_eq!(
        tokens[0].kind,
        TokenKind::SingleLineComment(" This is a comment".to_string())
    );
    assert_eq!(tokens[0].span, Span::new(1, 1, 20));
}

#[test]
fn test_multi_line_comment() {
    let mut lexer = Lexer::new("/* This is a multi-line comment */");
    let tokens = lexer.tokenize().unwrap();
    assert_eq!(
        tokens[0].kind,
        TokenKind::MultiLineComment(" This is a multi-line comment ".to_string())
    );
    assert_eq!(tokens[0].span, Span::new(1, 1, 34));
}

#[test]
fn test_multiple_comments() {
    let source = "// First comment\n/* Second comment */";
    let mut lexer = Lexer::new(source);
    let tokens = lexer.tokenize().unwrap();
    assert_eq!(tokens.len(), 3);
    assert!(matches!(
        tokens[0].kind,
        TokenKind::SingleLineComment(_)
    ));
    assert!(matches!(
        tokens[1].kind,
        TokenKind::MultiLineComment(_)
    ));
    assert_eq!(tokens[1].span.line, 2);
}

#[test]
fn test_unterminated_multi_line_comment() {
    let mut lexer = Lexer::new("/* Unterminated comment");
    let result = lexer.tokenize();
    assert!(result.is_err());
    let err = result.unwrap_err();
    assert_eq!(err.span.line, 1);
    assert_eq!(err.span.column, 1);
    assert!(err.message.contains("unterminated"));
}

#[test]
fn test_unknown_character() {
    let mut lexer = Lexer::new("42 @");
    let result = lexer.tokenize();
    assert!(result.is_err());
    let err = result.unwrap_err();
    assert!(err.message.contains("unexpected character"));
    assert_eq!(err.span.line, 1);
    assert_eq!(err.span.column, 4);
}

#[test]
fn test_decimal_literals() {
    let mut lexer = Lexer::new("0 1 42 12345");
    let tokens = lexer.tokenize().unwrap();
    assert_eq!(tokens.len(), 5);

    assert_eq!(
        tokens[0].kind,
        TokenKind::IntegerLiteral {
            value: 0,
            original: "0".to_string(),
            radix: 10
        }
    );
    assert_eq!(
        tokens[1].kind,
        TokenKind::IntegerLiteral {
            value: 1,
            original: "1".to_string(),
            radix: 10
        }
    );
    assert_eq!(
        tokens[2].kind,
        TokenKind::IntegerLiteral {
            value: 42,
            original: "42".to_string(),
            radix: 10
        }
    );
}

#[test]
fn test_decimal_with_underscores() {
    let mut lexer = Lexer::new("1_000 12_345_678");
    let tokens = lexer.tokenize().unwrap();
    assert_eq!(tokens.len(), 3);

    assert_eq!(
        tokens[0].kind,
        TokenKind::IntegerLiteral {
            value: 1000,
            original: "1_000".to_string(),
            radix: 10
        }
    );
    assert_eq!(
        tokens[1].kind,
        TokenKind::IntegerLiteral {
            value: 12345678,
            original: "12_345_678".to_string(),
            radix: 10
        }
    );
}

#[test]
fn test_float_decimal_literals() {
    let mut lexer = Lexer::new("1.0 12.34");
    let tokens = lexer.tokenize().unwrap();
    // 2 literals + Eof
    assert_eq!(tokens.len(), 3);

    assert_eq!(
        tokens[0].kind,
        TokenKind::FloatLiteral {
            original: "1.0".to_string(),
            cleaned: "1.0".to_string()
        }
    );
    assert_eq!(
        tokens[1].kind,
        TokenKind::FloatLiteral {
            original: "12.34".to_string(),
            cleaned: "12.34".to_string()
        }
    );
}

#[test]
fn test_float_exponent_literals() {
    let mut lexer = Lexer::new("1e0 1e-1 1E10 1.5e-1");
    let tokens = lexer.tokenize().unwrap();
    // 4 literals + Eof
    assert_eq!(tokens.len(), 5);

    assert_eq!(
        tokens[0].kind,
        TokenKind::FloatLiteral {
            original: "1e0".to_string(),
            cleaned: "1e0".to_string()
        }
    );
    assert_eq!(
        tokens[1].kind,
        TokenKind::FloatLiteral {
            original: "1e-1".to_string(),
            cleaned: "1e-1".to_string()
        }
    );
    assert_eq!(
        tokens[2].kind,
        TokenKind::FloatLiteral {
            original: "1E10".to_string(),
            cleaned: "1E10".to_string()
        }
    );
    assert_eq!(
        tokens[3].kind,
        TokenKind::FloatLiteral {
            original: "1.5e-1".to_string(),
            cleaned: "1.5e-1".to_string()
        }
    );
}

#[test]
fn test_float_underscores() {
    let mut lexer = Lexer::new("12_34_5.78_90 1_e_-1");
    let tokens = lexer.tokenize().unwrap();
    // 2 literals + Eof
    assert_eq!(tokens.len(), 3);

    assert_eq!(
        tokens[0].kind,
        TokenKind::FloatLiteral {
            original: "12_34_5.78_90".to_string(),
            cleaned: "12345.7890".to_string()
        }
    );
    assert_eq!(
        tokens[1].kind,
        TokenKind::FloatLiteral {
            original: "1_e_-1".to_string(),
            cleaned: "1e-1".to_string()
        }
    );
}

#[test]
fn test_binary_literals() {
    let mut lexer = Lexer::new("0b0 0b1 0b1010 0b1000_0000");
    let tokens = lexer.tokenize().unwrap();
    assert_eq!(tokens.len(), 5);

    assert_eq!(
        tokens[0].kind,
        TokenKind::IntegerLiteral {
            value: 0,
            original: "0b0".to_string(),
            radix: 2
        }
    );
    assert_eq!(
        tokens[1].kind,
        TokenKind::IntegerLiteral {
            value: 1,
            original: "0b1".to_string(),
            radix: 2
        }
    );
    assert_eq!(
        tokens[3].kind,
        TokenKind::IntegerLiteral {
            value: 128,
            original: "0b1000_0000".to_string(),
            radix: 2
        }
    );
}

#[test]
fn test_octal_literals() {
    let mut lexer = Lexer::new("0o0 0o7 0o1234_567 0o777");
    let tokens = lexer.tokenize().unwrap();
    assert_eq!(tokens.len(), 5);

    assert_eq!(
        tokens[0].kind,
        TokenKind::IntegerLiteral {
            value: 0,
            original: "0o0".to_string(),
            radix: 8
        }
    );
    assert_eq!(
        tokens[1].kind,
        TokenKind::IntegerLiteral {
            value: 7,
            original: "0o7".to_string(),
            radix: 8
        }
    );
    assert_eq!(
        tokens[3].kind,
        TokenKind::IntegerLiteral {
            value: 511,
            original: "0o777".to_string(),
            radix: 8
        }
    );
}

#[test]
fn test_hex_literals() {
    let mut lexer = Lexer::new("0x0 0xaa 0xdeadbeef 0xDEAD_bEaf");
    let tokens = lexer.tokenize().unwrap();
    assert_eq!(tokens.len(), 5);

    assert_eq!(
        tokens[0].kind,
        TokenKind::IntegerLiteral {
            value: 0,
            original: "0x0".to_string(),
            radix: 16
        }
    );
    assert_eq!(
        tokens[1].kind,
        TokenKind::IntegerLiteral {
            value: 0xaa,
            original: "0xaa".to_string(),
            radix: 16
        }
    );
    assert_eq!(
        tokens[2].kind,
        TokenKind::IntegerLiteral {
            value: 0xdeadbeef,
            original: "0xdeadbeef".to_string(),
            radix: 16
        }
    );
    assert_eq!(
        tokens[3].kind,
        TokenKind::IntegerLiteral {
            value: 0xDEADbEaf,
            original: "0xDEAD_bEaf".to_string(),
            radix: 16
        }
    );
}

#[test]
fn test_string_empty() {
    let mut lexer = Lexer::new(r#""""#);
    let tokens = lexer.tokenize().unwrap();
    assert_eq!(tokens.len(), 2);
    assert_eq!(
        tokens[0].kind,
        TokenKind::StringLiteral {
            value: String::new(),
            original: r#""""#.to_string(),
        }
    );
}

#[test]
fn test_string_simple() {
    let mut lexer = Lexer::new(r#""Hello""#);
    let tokens = lexer.tokenize().unwrap();
    assert_eq!(
        tokens[0].kind,
        TokenKind::StringLiteral {
            value: "Hello".to_string(),
            original: r#""Hello""#.to_string(),
        }
    );
}

#[test]
fn test_string_escapes() {
    let mut lexer = Lexer::new(r#""a\nb\r\"d\\e""#);
    let tokens = lexer.tokenize().unwrap();
    assert_eq!(
        tokens[0].kind,
        TokenKind::StringLiteral {
            value: "a\nb\r\"d\\e".to_string(),
            original: r#""a\nb\r\"d\\e""#.to_string(),
        }
    );
}

#[test]
fn test_string_line_from_example() {
    let s = r#""Also it must support other escape-sequences like \" quotes \", \r - resetting""#;
    let mut lexer = Lexer::new(s);
    let tokens = lexer.tokenize().unwrap();
    let TokenKind::StringLiteral { value, .. } = &tokens[0].kind else {
        panic!("expected string");
    };
    assert!(value.contains("quotes"));
    assert!(value.contains('\r'));
    assert!(value.contains('"'));
}

#[test]
fn test_unterminated_string() {
    let mut lexer = Lexer::new("\"no close");
    let err = lexer.tokenize().unwrap_err();
    assert!(err.message.contains("unterminated"));
}

#[test]
fn test_invalid_escape() {
    let mut lexer = Lexer::new(r#""\z""#);
    let err = lexer.tokenize().unwrap_err();
    assert!(err.message.contains("invalid escape"));
}

#[test]
fn test_identifier_and_punct() {
    let mut lexer = Lexer::new("func main ( ) { }");
    let tokens = lexer.tokenize().unwrap();
    assert_eq!(tokens[0].kind, TokenKind::Identifier("func".to_string()));
    assert_eq!(tokens[1].kind, TokenKind::Identifier("main".to_string()));
    assert_eq!(tokens[2].kind, TokenKind::LParen);
    assert_eq!(tokens[3].kind, TokenKind::RParen);
    assert_eq!(tokens[4].kind, TokenKind::LBrace);
    assert_eq!(tokens[5].kind, TokenKind::RBrace);
    assert_eq!(tokens[6].kind, TokenKind::Eof);
}

#[test]
fn test_colon_semicolon_comma() {
    let mut lexer = Lexer::new("a: b; c, d");
    let tokens = lexer.tokenize().unwrap();
    assert_eq!(tokens[0].kind, TokenKind::Identifier("a".to_string()));
    assert_eq!(tokens[1].kind, TokenKind::Colon);
    assert_eq!(tokens[2].kind, TokenKind::Identifier("b".to_string()));
    assert_eq!(tokens[3].kind, TokenKind::Semicolon);
    assert_eq!(tokens[4].kind, TokenKind::Identifier("c".to_string()));
    assert_eq!(tokens[5].kind, TokenKind::Comma);
    assert_eq!(tokens[6].kind, TokenKind::Identifier("d".to_string()));
}

#[test]
fn test_plus_operator() {
    let mut lexer = Lexer::new("a + b");
    let tokens = lexer.tokenize().unwrap();
    assert_eq!(tokens[0].kind, TokenKind::Identifier("a".to_string()));
    assert_eq!(tokens[1].kind, TokenKind::Plus);
    assert_eq!(tokens[2].kind, TokenKind::Identifier("b".to_string()));
}

#[test]
fn test_let_underscore_eq_tokens() {
    let mut lexer = Lexer::new("let x: Int = 1; let _ = 2;");
    let tokens = lexer.tokenize().unwrap();
    assert_eq!(tokens[0].kind, TokenKind::Let);
    assert_eq!(tokens[1].kind, TokenKind::Identifier("x".to_string()));
    assert_eq!(tokens[2].kind, TokenKind::Colon);
    assert_eq!(tokens[3].kind, TokenKind::Identifier("Int".to_string()));
    assert_eq!(tokens[4].kind, TokenKind::Eq);
    assert!(matches!(
        tokens[5].kind,
        TokenKind::IntegerLiteral { value: 1, .. }
    ));
    assert_eq!(tokens[6].kind, TokenKind::Semicolon);
    assert_eq!(tokens[7].kind, TokenKind::Let);
    assert_eq!(tokens[8].kind, TokenKind::Underscore);
    assert_eq!(tokens[9].kind, TokenKind::Eq);
    assert!(matches!(
        tokens[10].kind,
        TokenKind::IntegerLiteral { value: 2, .. }
    ));
    assert_eq!(tokens[11].kind, TokenKind::Semicolon);
    assert!(matches!(tokens[12].kind, TokenKind::Eof));
}

#[test]
fn test_bool_keywords_comparison_logic_ops() {
    let mut lexer = Lexer::new("true false if else == != < > <= >= && || !");
    let tokens = lexer.tokenize().unwrap();
    assert_eq!(tokens[0].kind, TokenKind::True);
    assert_eq!(tokens[1].kind, TokenKind::False);
    assert_eq!(tokens[2].kind, TokenKind::If);
    assert_eq!(tokens[3].kind, TokenKind::Else);
    assert_eq!(tokens[4].kind, TokenKind::EqEq);
    assert_eq!(tokens[5].kind, TokenKind::Ne);
    assert_eq!(tokens[6].kind, TokenKind::Lt);
    assert_eq!(tokens[7].kind, TokenKind::Gt);
    assert_eq!(tokens[8].kind, TokenKind::Le);
    assert_eq!(tokens[9].kind, TokenKind::Ge);
    assert_eq!(tokens[10].kind, TokenKind::AndAnd);
    assert_eq!(tokens[11].kind, TokenKind::OrOr);
    assert_eq!(tokens[12].kind, TokenKind::Bang);
    assert!(matches!(tokens[13].kind, TokenKind::Eof));
}

#[test]
fn test_bitwise_amp_pipe_caret_and_compounds() {
    let mut lexer = Lexer::new("a & b | c ^ d += -= *= /= %= &= |= ^=");
    let tokens = lexer.tokenize().unwrap();
    assert!(matches!(tokens[1].kind, TokenKind::Amp));
    assert!(matches!(tokens[3].kind, TokenKind::Pipe));
    assert!(matches!(tokens[5].kind, TokenKind::Caret));
    assert!(matches!(tokens[7].kind, TokenKind::PlusEq));
    assert!(matches!(tokens[8].kind, TokenKind::MinusEq));
    assert!(matches!(tokens[9].kind, TokenKind::StarEq));
    assert!(matches!(tokens[10].kind, TokenKind::SlashEq));
    assert!(matches!(tokens[11].kind, TokenKind::PercentEq));
    assert!(matches!(tokens[12].kind, TokenKind::AndEq));
    assert!(matches!(tokens[13].kind, TokenKind::OrEq));
    assert!(matches!(tokens[14].kind, TokenKind::CaretEq));
}

#[test]
fn test_while_break_continue_keywords() {
    let mut lexer = Lexer::new("while break continue");
    let tokens = lexer.tokenize().unwrap();
    assert_eq!(tokens[0].kind, TokenKind::While);
    assert_eq!(tokens[1].kind, TokenKind::Break);
    assert_eq!(tokens[2].kind, TokenKind::Continue);
}

#[test]
fn test_exponent_letter_without_digits_stays_in_integer() {
    let mut lexer = Lexer::new("1e x");
    let tokens = lexer.tokenize().unwrap();
    assert_eq!(tokens.len(), 3);
    assert_eq!(
        tokens[0].kind,
        TokenKind::IntegerLiteral { value: 0, original: "1e".to_string(), radix: 10 }
    );
    assert_eq!(tokens[0].span, Span::new(1, 1, 2));
    assert_eq!(tokens[1].kind, TokenKind::Identifier("x".to_string()));
}

#[test]
fn test_number_before_range_dots() {
    let mut lexer = Lexer::new("1..2");
    let tokens = lexer.tokenize().unwrap();
    assert_eq!(tokens.len(), 4);
    assert_eq!(
        tokens[0].kind,
        TokenKind::IntegerLiteral { value: 1, original: "1".to_string(), radix: 10 }
    );
    assert_eq!(tokens[1].kind, TokenKind::DotDot);
    assert_eq!(
        tokens[2].kind,
        TokenKind::IntegerLiteral { value: 2, original: "2".to_string(), radix: 10 }
    );
}

#[test]
fn test_dot_without_fraction_digit() {
    let mut lexer = Lexer::new("3._");
    let tokens = lexer.tokenize().unwrap();
    assert_eq!(tokens.len(), 4);
    assert_eq!(
        tokens[0].kind,
        TokenKind::IntegerLiteral { value: 3, original: "3".to_string(), radix: 10 }
    );
    assert_eq!(tokens[1].kind, TokenKind::Dot);
    assert_eq!(tokens[2].kind, TokenKind::Underscore);
}

#[test]
fn test_empty_hex_literal_error() {
    let mut lexer = Lexer::new("a 0x__ b");
    let err = lexer.tokenize().unwrap_err();
    assert_eq!(err.message, "empty hexadecimal literal");
    assert_eq!(err.span, Span::new(1, 3, 4));
}

#[test]
fn test_error_after_tokens_points_at_failure() {
    let mut lexer = Lexer::new("x = 1;\n  \"abc");
    let err = lexer.tokenize().unwrap_err();
    assert_eq!(err.message, "unterminated string literal");
    assert_eq!(err.span, Span::new(2, 3, 4));
}

#[test]
fn test_invalid_escape_span() {
    let mut lexer = Lexer::new("\"a\\qb\"");
    let err = lexer.tokenize().unwrap_err();
    assert_eq!(err.message, "invalid escape sequence \\q");
    assert_eq!(err.span, Span::new(1, 3, 2));
}

#[test]
fn token_spans_increase_and_are_not_empty() {
    let tokens = Lexer::new("let x = 1;\n  foo(x) // done\n").tokenize().unwrap();
    let n = tokens.len();
    assert!(n >= 2);
    for i in 0..n - 1 {
        let a = tokens[i].span;
        assert!(a.len >= 1 && a.line >= 1 && a.column >= 1);
        let b = tokens[i + 1].span;
        assert!(a.line < b.line || (a.line == b.line && a.column < b.column));
    }
    assert_eq!(tokens[n - 1].kind, TokenKind::Eof);
    assert_eq!(tokens[n - 1].span.len, 0);
}

#[test]
fn file_name_changes_only_the_spans_file() {
    let src = "func main() {\n  let x = 1;\n}";
    let plain = Lexer::new(src).tokenize().unwrap();
    let named = Lexer::new_with_file(src, "main.vc").tokenize().unwrap();
    assert_eq!(plain.len(), named.len());
    for (p, n) in plain.iter().zip(named.iter()) {
        assert_eq!(p.kind, n.kind);
        assert_eq!(p.span.with_file("main.vc"), n.span);
        assert_eq!(p.span.file, None);
    }
}
