use vibelang::ast::{AstNode, Param, TypeExpr};
use vibelang::builtins::{default_registry, BuiltinImpl, BuiltinRegistry, Builtin};
use vibelang::builtins::print::PrintBuiltin;
use vibelang::builtins::sleep::SleepBuiltin;
use vibelang::error::Span;
use vibelang::lexer::Lexer;
use vibelang::parser::Parser;

fn decl(src: &str) -> (String, Vec<Param>, Option<TypeExpr>, bool) {
    let tokens = Lexer::new(src).tokenize().expect("lex");
    let ast = Parser::new(tokens).parse().expect("parse");
    let AstNode::Program(mut items) = ast else { panic!("program") };
    match items.remove(0) {
        AstNode::InternalFunction { name, params, return_type, is_async, .. } => (name, params, return_type, is_async),
        other => panic!("expected internal function, got {other:?}"),
    }
}

fn check(reg: &BuiltinRegistry, src: &str) -> Result<(), String> {
    let (name, params, rt, is_async) = decl(src);
    reg.validate_internal_func_decl(&name, &params, &rt, Span::new(1, 1, 1), is_async)
        .map_err(|e| e.message)
}

#[test]
fn print_declaration_is_accepted() {
    let reg = default_registry();
    assert_eq!(check(&reg, "internal func print(s: String);"), Ok(()));
}

#[test]
fn print_with_wrong_parameter_is_rejected() {
    let reg = default_registry();
    assert_eq!(
        check(&reg, "internal func print(s: Int);"),
        Err("internal `print` must be `print(s: String);`".to_string())
    );
    assert_eq!(
        check(&reg, "internal func print(s: String): Int;"),
        Err("internal `print` must have no return type".to_string())
    );
}

#[test]
fn itos_requires_string_result() {
    let reg = default_registry();
    assert_eq!(check(&reg, "internal func itos(s: Int): String;"), Ok(()));
    assert_eq!(
        check(&reg, "internal func itos(s: Int);"),
        Err("internal `itos` must return `String`".to_string())
    );
}

#[test]
fn unknown_internal_function_is_reported() {
    let reg = default_registry();
    assert_eq!(
        check(&reg, "internal func nope();"),
        Err("unsupported internal function `nope` (no builtin registered)".to_string())
    );
}

#[test]
fn sleep_must_be_async() {
    let reg = default_registry();
    assert_eq!(
        check(&reg, "internal func sleep(ms: Int): Task;"),
        Err("internal `sleep` must be declared `internal async func sleep(...): Task;`".to_string())
    );
    assert_eq!(check(&reg, "internal async func sleep(ms: Int): Task;"), Ok(()));
}

#[test]
fn async_declarations_resolve_to_first_matching_builtin() {
    let reg = default_registry();
    let (_, params, rt, _) = decl("internal async func pause(ms: Int): Task<()>;");
    assert_eq!(reg.resolve_internal_async_callee(&params, &rt, Span::new(1, 1, 1)).ok(), Some("sleep"));
    let (_, params, rt, _) = decl("internal async func all(tasks: [Task<Int>]): Task;");
    assert_eq!(
        reg.resolve_internal_async_callee(&params, &rt, Span::new(1, 1, 1)).ok(),
        Some("wait_all_tasks_async")
    );
    let (_, params, rt, _) = decl("internal async func done(v: String): Task<String>;");
    assert_eq!(
        reg.resolve_internal_async_callee(&params, &rt, Span::new(1, 1, 1)).ok(),
        Some("create_completed_task_async")
    );
    let (_, params, rt, _) = decl("internal async func bad(a: Int, b: Int): Task;");
    let err = reg.resolve_internal_async_callee(&params, &rt, Span::new(4, 2, 3)).unwrap_err();
    assert_eq!(err.span, Some(Span::new(4, 2, 3)));
    assert_eq!(
        err.message,
        "internal `async func` must match built-in `sleep` or `wait_all_tasks_async` signatures"
    );
}

#[test]
fn clone_requires_matching_types() {
    let reg = default_registry();
    assert_eq!(check(&reg, "internal func clone<T>(value: [T]): [T];"), Ok(()));
    assert_eq!(
        check(&reg, "internal func clone<T>(value: [T]): T;"),
        Err("internal `clone` must be `clone<T>(value: T): T;`".to_string())
    );
}

#[test]
fn dict_get_signature() {
    let reg = default_registry();
    let (_, params, rt, _) = decl("internal func Dict<K, V>::get(self: Dict<type K, type V>, key: K): Option<V>;");
    let b = reg.get("Dict<K, V>::get").expect("registered");
    assert_eq!(b.name(), "Dict<K, V>::get");
    assert!(b.validate_decl(&params, &rt, Span::new(1, 1, 1)).is_ok());
    let (_, params, rt, _) = decl("internal func Dict<K, V>::get(self: Dict<type K, type V>, key: K): V;");
    assert_eq!(
        b.validate_decl(&params, &rt, Span::new(1, 1, 1)).unwrap_err().message,
        "internal `Dict::get` must return `Option<V>`"
    );
}

#[test]
fn sleep_async_is_looked_up_as_sleep() {
    let reg = default_registry();
    let b = reg.get("sleep_async").expect("sleep");
    assert_eq!(b.name(), "sleep");
    assert!(reg.get("fetch").is_none());
}

#[test]
fn registering_again_replaces_the_builtin() {
    let mut reg = BuiltinRegistry::new();
    assert!(reg.get("print").is_none());
    reg.register(Builtin::Print(PrintBuiltin));
    reg.register(Builtin::Sleep(SleepBuiltin));
    reg.register(Builtin::Print(PrintBuiltin));
    assert_eq!(reg.get("print").map(|b| b.name()), Some("print"));
    assert_eq!(reg.get("sleep").map(|b| b.name()), Some("sleep"));
}
