use vibelang::ast::{AstNode, TypeExpr};
use vibelang::lexer::Lexer;
use vibelang::monomorphize::monomorphize_program;
use vibelang::parser::Parser;

fn parse(src: &str) -> AstNode {
    let mut lexer = Lexer::new(src);
    let tokens = lexer.tokenize().expect("lex");
    let mut parser = Parser::new(tokens);
    parser.parse().expect("parse")
}

fn function_names(items: &[AstNode]) -> Vec<String> {
    items
        .iter()
        .filter_map(|n| match n {
            AstNode::Function { name, .. } => Some(name.clone()),
            _ => None,
        })
        .collect()
}

#[test]
fn keeps_program_shape_for_non_explicit_generic_calls() {
    let ast = parse(
        r#"func id<T>(x: T): T { return x; }
           func main() { let _ = id(1); }"#,
    );
    let mono = monomorphize_program(&ast);
    let AstNode::Program(items) = mono else {
        panic!("program");
    };
    let names: Vec<String> = items
        .iter()
        .filter_map(|n| match n {
            AstNode::Function { name, .. } => Some(name.clone()),
            _ => None,
        })
        .collect();
    assert!(names.contains(&"id".to_string()));
    assert!(names.contains(&"main".to_string()));
}

#[test]
fn explicit_generic_call_is_instantiated() {
    let ast = parse("func id<T>(x: T): T { return x; }\nid<Int>(1);");
    let AstNode::Program(items) = monomorphize_program(&ast) else {
        panic!("program");
    };
    assert_eq!(items.len(), 3);
    match &items[1] {
        AstNode::Call { callee, type_args, .. } => {
            assert_eq!(callee, "id$mono$Int");
            assert!(type_args.is_empty());
        }
        other => panic!("expected call, got {other:?}"),
    }
    match &items[2] {
        AstNode::Function { name, type_params, params, .. } => {
            assert_eq!(name, "id$mono$Int");
            assert!(type_params.is_empty());
            assert_eq!(params.len(), 1);
        }
        other => panic!("expected instance, got {other:?}"),
    }
}

#[test]
fn instance_names_mangle_punctuation() {
    let ast = parse("func first<T>(xs: [T]): T { return xs[0]; }\nfirst<[Int]>([[1]]);\nfirst<[Int]>([[2]]);");
    let AstNode::Program(items) = monomorphize_program(&ast) else {
        panic!("program");
    };
    let names = function_names(&items);
    assert_eq!(names, vec!["first".to_string(), "first$mono$_Int_".to_string()]);
}

#[test]
fn call_with_inferred_type_argument_is_left_alone() {
    let ast = parse("func id<T>(x: T): T { return x; }\nid<_>(1);");
    let AstNode::Program(items) = monomorphize_program(&ast) else {
        panic!("program");
    };
    assert_eq!(items.len(), 2);
    match &items[1] {
        AstNode::Call { callee, type_args, .. } => {
            assert_eq!(callee, "id");
            assert_eq!(type_args, &vec![TypeExpr::Infer]);
        }
        other => panic!("expected call, got {other:?}"),
    }
}

#[test]
fn concrete_generic_struct_use_is_materialized() {
    let ast = parse("struct Pair<A, B> { a: A, b: B }\nlet p = Pair<Int, String> { a: 1, b: \"x\" };");
    let AstNode::Program(items) = monomorphize_program(&ast) else {
        panic!("program");
    };
    assert_eq!(items.len(), 3);
    match &items[2] {
        AstNode::StructDef { name, type_params, fields, .. } => {
            assert_eq!(name, "Pair<Int, String>");
            assert!(type_params.is_empty());
            assert_eq!(fields.len(), 2);
        }
        other => panic!("expected struct, got {other:?}"),
    }
}

#[test]
fn non_program_input_is_returned_as_is() {
    let node = AstNode::Break { span: vibelang::error::Span::new(1, 1, 5) };
    assert_eq!(monomorphize_program(&node), node);
}

#[test]
fn calls_inside_function_bodies_are_rewritten() {
    let ast = parse("func id<T>(x: T): T { return x; }\nfunc main() { let y = id<Int>(1); }");
    let AstNode::Program(items) = monomorphize_program(&ast) else {
        panic!("program");
    };
    assert_eq!(function_names(&items), vec!["id".to_string(), "main".to_string(), "id$mono$Int".to_string()]);
    match &items[1] {
        AstNode::Function { body, .. } => match &body[0] {
            AstNode::Let { initializer: Some(init), .. } => match &**init {
                AstNode::Call { callee, type_args, .. } => {
                    assert_eq!(callee, "id$mono$Int");
                    assert!(type_args.is_empty());
                }
                other => panic!("expected call, got {other:?}"),
            },
            other => panic!("expected let, got {other:?}"),
        },
        other => panic!("expected main, got {other:?}"),
    }
    match &items[2] {
        AstNode::Function { type_params, body, .. } => {
            assert!(type_params.is_empty());
            assert_eq!(body.len(), 1);
        }
        other => panic!("expected instance, got {other:?}"),
    }
}

#[test]
fn calls_inside_generic_bodies_reach_their_instances() {
    let ast = parse(
        "func id<T>(x: T): T { return x; }\nfunc wrap<T>(x: T): Int { return id<Int>(1); }\nwrap<String>(\"a\");",
    );
    let AstNode::Program(items) = monomorphize_program(&ast) else {
        panic!("program");
    };
    let names = function_names(&items);
    assert_eq!(
        names,
        vec!["id".to_string(), "wrap".to_string(), "id$mono$Int".to_string(), "wrap$mono$String".to_string()]
    );
}
