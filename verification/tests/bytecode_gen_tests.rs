use vibelang::ast::{AstNode, BinaryOp, Pattern, PatternElem, StructPatternField};
use vibelang::builtins::default_registry;
use vibelang::bytecode::Instr;
use vibelang::bytecode_gen::{
    validate_internal_func_decl, CallParamSpec, CompileError, FnGen, LabelId, Labeler, VarSlot, VarSlotKind,
};
use vibelang::error::Span;

fn sp(col: usize) -> Span {
    Span::new(1, col, 1)
}

fn bind(name: &str, col: usize) -> Pattern {
    Pattern::Binding { name: name.to_string(), name_span: sp(col) }
}

fn elem(p: Pattern) -> PatternElem {
    PatternElem::Pattern(p)
}

struct Tables {
    globals: Vec<(String, u32)>,
    specs: Vec<(String, Vec<CallParamSpec>)>,
    asyncs: Vec<String>,
    vm: Vec<(String, String)>,
}

fn tables() -> Tables {
    Tables {
        globals: vec![("g".to_string(), 7), ("a".to_string(), 9)],
        specs: Vec::new(),
        asyncs: vec!["asyncSleep".to_string(), "fetchLater".to_string()],
        vm: vec![("asyncSleep".to_string(), "sleep".to_string())],
    }
}

fn gen(t: &Tables) -> FnGen<'_> {
    FnGen::new(&t.globals, &t.specs, &t.asyncs, &t.vm)
}

#[test]
fn compile_error_formats_with_and_without_location() {
    let e = CompileError::new("bad thing".to_string(), Some(Span::new(3, 14, 2)));
    assert_eq!(e.format_with_file("main.vc"), "main.vc:3:14: bytecode error: bad thing");
    let e = CompileError::new("no place".to_string(), None);
    assert_eq!(e.format_with_file("lib.vc"), "lib.vc: bytecode error: no place");
}

#[test]
fn internal_declarations_are_checked_against_the_builtins() {
    let reg = default_registry();
    let r = validate_internal_func_decl(&reg, "sleep", &[], &None, sp(5), false);
    let e = r.expect_err("sync sleep is rejected");
    assert_eq!(e.message, "internal `sleep` must be declared `internal async func sleep(...): Task;`");
    assert_eq!(e.span, Some(sp(5)));
    let e = validate_internal_func_decl(&reg, "nosuch", &[], &None, sp(2), false).expect_err("unknown");
    assert_eq!(e.message, "unsupported internal function `nosuch` (no builtin registered)");
}

#[test]
fn labeler_patches_only_jumps_waiting_for_placed_labels() {
    let mut labels = Labeler::new();
    let l0 = labels.new_label();
    let l1 = labels.new_label();
    assert_eq!(l0, LabelId(0));
    assert_eq!(l1, LabelId(1));
    let mut code = vec![
        Instr::Jump { target: 0 },
        Instr::JumpIfFalse { target: 0 },
        Instr::Pop,
        Instr::JumpIfTrue { target: 3 },
    ];
    labels.add_patch(l0, 0);
    labels.add_patch(l1, 1);
    labels.add_patch(l0, 3);
    labels.mark(l0, 42);
    labels.patch_all(&mut code);
    assert!(matches!(code[0], Instr::Jump { target: 42 }));
    assert!(matches!(code[1], Instr::JumpIfFalse { target: 0 }));
    assert!(matches!(code[2], Instr::Pop));
    assert!(matches!(code[3], Instr::JumpIfTrue { target: 42 }));
}

#[test]
fn labeler_accepts_any_order_and_labels_made_later() {
    let mut labels = Labeler::new();
    let mut code = vec![Instr::Jump { target: 0 }, Instr::Pop, Instr::JumpIfTrue { target: 0 }];
    labels.add_patch(LabelId(1), 2);
    labels.add_patch(LabelId(7), 1);
    labels.add_patch(LabelId(1), 0);
    let l0 = labels.new_label();
    let l1 = labels.new_label();
    labels.mark(l1, 9);
    labels.mark(l0, 5);
    labels.patch_all(&mut code);
    assert!(matches!(code[0], Instr::Jump { target: 9 }));
    assert!(matches!(code[1], Instr::Pop));
    assert!(matches!(code[2], Instr::JumpIfTrue { target: 9 }));
}

#[test]
fn innermost_local_shadows_outer_locals_and_globals() {
    let t = tables();
    let mut g = gen(&t);
    assert_eq!(g.resolve_var("g"), Some(VarSlot { kind: VarSlotKind::Global, slot: 7 }));
    assert_eq!(g.resolve_var("zz"), None);
    g.push_scope();
    g.declare_pattern(&bind("a", 1)).unwrap();
    assert_eq!(g.resolve_var("a"), Some(VarSlot { kind: VarSlotKind::Local, slot: 0 }));
    g.push_scope();
    g.declare_pattern(&bind("a", 2)).unwrap();
    assert_eq!(g.resolve_var("a"), Some(VarSlot { kind: VarSlotKind::Local, slot: 1 }));
    g.pop_scope();
    assert_eq!(g.resolve_var("a"), Some(VarSlot { kind: VarSlotKind::Local, slot: 0 }));
    g.pop_scope();
    assert_eq!(g.resolve_var("a"), Some(VarSlot { kind: VarSlotKind::Global, slot: 9 }));
}

#[test]
fn declaring_a_nested_pattern_numbers_its_names_in_order() {
    let t = tables();
    let mut g = gen(&t);
    g.push_scope();
    let p = Pattern::Tuple {
        elements: vec![
            elem(bind("x", 1)),
            PatternElem::Rest(sp(2)),
            elem(Pattern::Wildcard { span: sp(3) }),
            elem(Pattern::Array { elements: vec![elem(bind("y", 4)), elem(bind("z", 5))], span: sp(4) }),
            elem(Pattern::Struct {
                name: "P".to_string(),
                name_span: sp(6),
                type_args: Vec::new(),
                fields: vec![StructPatternField { name: "f".to_string(), name_span: sp(7), pattern: bind("w", 7) }],
                rest: None,
                span: sp(6),
            }),
        ],
        span: sp(1),
    };
    assert!(g.declare_pattern(&p).is_ok());
    assert_eq!(g.local_count(), 4);
    assert!(g.code().is_empty());
    for (name, slot) in [("x", 0), ("y", 1), ("z", 2), ("w", 3)] {
        assert_eq!(g.resolve_var(name), Some(VarSlot { kind: VarSlotKind::Local, slot }));
    }
}

#[test]
fn storing_into_a_tuple_with_rest_takes_the_tail_from_the_end() {
    let t = tables();
    let mut g = gen(&t);
    g.push_scope();
    g.declare_pattern(&bind("p", 1)).unwrap();
    g.declare_pattern(&bind("q", 2)).unwrap();
    let pat = Pattern::Tuple {
        elements: vec![elem(bind("p", 3)), PatternElem::Rest(sp(4)), elem(bind("q", 5))],
        span: sp(9),
    };
    assert!(g.store_pattern_value(&pat).is_ok());
    assert_eq!(g.local_count(), 3);
    let c = g.code();
    assert_eq!(c.len(), 7);
    assert!(matches!(c[0], Instr::StoreLocal { slot: 2, .. }));
    assert!(matches!(c[1], Instr::LoadLocal { slot: 2, .. }));
    assert!(matches!(c[2], Instr::GetTupleField { index: 0, .. }));
    assert!(matches!(c[3], Instr::StoreLocal { slot: 0, .. }));
    assert!(matches!(c[4], Instr::LoadLocal { slot: 2, .. }));
    assert!(matches!(c[5], Instr::GetTupleFieldFromEnd { offset_from_end: 0, .. }));
    assert!(matches!(c[6], Instr::StoreLocal { slot: 1, .. }));
}

#[test]
fn storing_into_an_exact_array_checks_its_length_and_indexes_it() {
    let t = tables();
    let mut g = gen(&t);
    let pat = Pattern::Array { elements: vec![elem(bind("g", 1)), elem(Pattern::Wildcard { span: sp(2) }), elem(bind("a", 3))], span: sp(1) };
    assert!(g.store_pattern_value(&pat).is_ok());
    let c = g.code();
    assert_eq!(c.len(), 3 + 4 * 3);
    assert!(matches!(c[0], Instr::StoreLocal { slot: 0, .. }));
    assert!(matches!(c[1], Instr::LoadLocal { slot: 0, .. }));
    assert!(matches!(c[2], Instr::AssertArrayLenEq { expected: 3, .. }));
    match &c[4] {
        Instr::PushInt { value, radix: 10, .. } => assert_eq!(value, "0"),
        other => panic!("unexpected {other:?}"),
    }
    assert!(matches!(c[5], Instr::GetArrayIndex { .. }));
    assert!(matches!(c[6], Instr::StoreGlobal { slot: 7, .. }));
    match &c[8] {
        Instr::PushInt { value, .. } => assert_eq!(value, "1"),
        other => panic!("unexpected {other:?}"),
    }
    assert!(matches!(c[10], Instr::Pop));
    match &c[12] {
        Instr::PushInt { value, .. } => assert_eq!(value, "2"),
        other => panic!("unexpected {other:?}"),
    }
    assert!(matches!(c[14], Instr::StoreGlobal { slot: 9, .. }));
}

#[test]
fn storing_literals_and_enum_payloads() {
    let t = tables();
    let mut g = gen(&t);
    let pat = Pattern::EnumVariant {
        enum_name: "Option".to_string(),
        enum_name_span: sp(1),
        type_args: Vec::new(),
        variant: "Some".to_string(),
        payloads: vec![Pattern::IntLiteral { value: 5, original: "0x5".to_string(), radix: 16, span: sp(2) }, bind("g", 3)],
        span: sp(1),
    };
    assert!(g.store_pattern_value(&pat).is_ok());
    let c = g.code();
    assert_eq!(c.len(), 5);
    match &c[0] {
        Instr::UnpackEnumVariant { enum_name, variant, payload_count: 2, .. } => {
            assert_eq!(enum_name, "Option");
            assert_eq!(variant, "Some");
        },
        other => panic!("unexpected {other:?}"),
    }
    // The last payload is on top of the stack, so it is stored first.
    assert!(matches!(c[1], Instr::StoreGlobal { slot: 7, .. }));
    match &c[2] {
        Instr::PushInt { value, radix: 16, .. } => assert_eq!(value, "0x5"),
        other => panic!("unexpected {other:?}"),
    }
    assert!(matches!(c[3], Instr::BinOp { op: BinaryOp::Eq, .. }));
    assert!(matches!(c[4], Instr::AssertBool { .. }));
}

#[test]
fn storing_into_an_unknown_name_is_an_error() {
    let t = tables();
    let mut g = gen(&t);
    let pat = Pattern::Tuple { elements: vec![elem(bind("g", 1)), elem(bind("nope", 4)), elem(bind("zip", 8))], span: sp(1) };
    let e = g.store_pattern_value(&pat).expect_err("unknown");
    assert_eq!(e.message, "unknown variable `nope`");
    assert_eq!(e.span, Some(sp(4)));
}

#[test]
fn async_callees_become_deferred_tasks() {
    let t = tables();
    let mut g = gen(&t);
    g.emit_function_invoke("asyncSleep", 1, sp(1));
    g.emit_function_invoke("fetchLater", 2, sp(2));
    g.emit_function_invoke("print", 1, sp(3));
    let c = g.code();
    match &c[0] {
        Instr::MakeDeferredTask { func, argc: 1, .. } => assert_eq!(func, "sleep"),
        other => panic!("unexpected {other:?}"),
    }
    match &c[1] {
        Instr::MakeDeferredTask { func, argc: 2, .. } => assert_eq!(func, "fetchLater"),
        other => panic!("unexpected {other:?}"),
    }
    match &c[2] {
        Instr::Call { callee, argc: 1, .. } => assert_eq!(callee, "print"),
        other => panic!("unexpected {other:?}"),
    }
}

#[test]
fn assignment_targets_yield_their_root_variable_and_path() {
    let t = tables();
    let g = gen(&t);
    let ident = |n: &str| AstNode::Identifier { name: n.to_string(), span: sp(1) };
    let lhs = AstNode::ArrayIndex {
        base: Box::new(AstNode::ArrayIndex {
            base: Box::new(ident("g")),
            index: Box::new(AstNode::BoolLiteral { value: true, span: sp(3) }),
            span: sp(2),
        }),
        index: Box::new(AstNode::BoolLiteral { value: false, span: sp(5) }),
        span: sp(4),
    };
    let (root, idx) = g.extract_array_index_chain(&lhs).expect("chain");
    assert_eq!(root, VarSlot { kind: VarSlotKind::Global, slot: 7 });
    assert_eq!(idx.len(), 2);
    assert!(matches!(idx[0].0, AstNode::BoolLiteral { value: true, .. }));
    assert_eq!(idx[1].1, sp(4));
    let lhs = AstNode::FieldAccess {
        base: Box::new(AstNode::FieldAccess { base: Box::new(ident("a")), field: "x".to_string(), span: sp(2) }),
        field: "y".to_string(),
        span: sp(3),
    };
    let (root, fields) = g.extract_field_access_chain(&lhs).expect("chain");
    assert_eq!(root, VarSlot { kind: VarSlotKind::Global, slot: 9 });
    assert_eq!(fields.iter().map(|f| f.0).collect::<Vec<_>>(), vec!["x", "y"]);
    assert!(g.extract_field_access_chain(&ident("nobody")).is_none());
    assert!(g.extract_array_index_chain(&AstNode::BoolLiteral { value: true, span: sp(1) }).is_none());
}

fn lit_int(v: u64) -> AstNode {
    AstNode::IntegerLiteral { value: v, original: v.to_string(), radix: 10, span: sp(1) }
}

fn pos(v: u64) -> vibelang::ast::CallArg {
    vibelang::ast::CallArg::Positional(lit_int(v))
}

fn named(n: &str, v: u64) -> vibelang::ast::CallArg {
    vibelang::ast::CallArg::Named { name: n.to_string(), name_span: sp(7), value: lit_int(v) }
}

fn param(n: &str, is_params: bool, default: Option<u64>) -> CallParamSpec {
    CallParamSpec { name: n.to_string(), is_params, default_value: default.map(lit_int) }
}

fn call_tables() -> Tables {
    Tables {
        globals: Vec::new(),
        specs: vec![
            ("f".to_string(), vec![param("a", false, None), param("b", false, Some(5)), param("rest", true, None)]),
            ("g".to_string(), vec![param("a", false, None), param("b", false, None)]),
        ],
        asyncs: Vec::new(),
        vm: Vec::new(),
    }
}

#[test]
fn undeclared_callees_take_positional_arguments_only() {
    let t = call_tables();
    let g = gen(&t);
    let out = g.resolve_call_arguments("h", &[pos(1), pos(2)], sp(1)).expect("ok");
    assert_eq!(out, vec![lit_int(1), lit_int(2)]);
    let e = g.resolve_call_arguments("h", &[pos(1), named("x", 2)], sp(1)).expect_err("named");
    assert_eq!(e.message, "unknown named argument `x` for `h`");
    assert_eq!(e.span, Some(sp(7)));
}

#[test]
fn extra_positional_arguments_are_packed_into_params() {
    let t = call_tables();
    let g = gen(&t);
    let out = g.resolve_call_arguments("f", &[pos(1), pos(2), pos(3), pos(4)], sp(2)).expect("ok");
    assert_eq!(out, vec![lit_int(1), lit_int(2), AstNode::ArrayLiteral { elements: vec![lit_int(3), lit_int(4)], span: sp(2) }]);
    let out = g.resolve_call_arguments("f", &[pos(1)], sp(2)).expect("ok");
    assert_eq!(out, vec![lit_int(1), lit_int(5), AstNode::ArrayLiteral { elements: Vec::new(), span: sp(2) }]);
    let out = g.resolve_call_arguments("f", &[named("rest", 8), named("a", 1)], sp(2)).expect("ok");
    assert_eq!(out, vec![lit_int(1), lit_int(5), lit_int(8)]);
}

#[test]
fn named_arguments_go_to_their_parameters() {
    let t = call_tables();
    let g = gen(&t);
    let out = g.resolve_call_arguments("g", &[named("b", 2), named("a", 1)], sp(3)).expect("ok");
    assert_eq!(out, vec![lit_int(1), lit_int(2)]);
    let out = g.resolve_call_arguments("g", &[pos(1), named("b", 2)], sp(3)).expect("ok");
    assert_eq!(out, vec![lit_int(1), lit_int(2)]);
}

#[test]
fn call_argument_errors() {
    let t = call_tables();
    let g = gen(&t);
    let msg = |callee: &str, args: &[vibelang::ast::CallArg]| g.resolve_call_arguments(callee, args, sp(3)).expect_err("error").message;
    assert_eq!(msg("g", &[named("a", 1), pos(2)]), "positional arguments cannot follow named arguments");
    assert_eq!(msg("g", &[pos(1), named("a", 2)]), "duplicate argument `a`");
    assert_eq!(msg("g", &[named("c", 1)]), "unknown named argument `c` for `g`");
    assert_eq!(msg("g", &[pos(1)]), "missing required argument `b` to `g`");
    assert_eq!(msg("g", &[pos(1), pos(2), pos(3)]), "function `g` expects 2 argument(s), found at least 3");
    assert_eq!(
        msg("f", &[pos(1), pos(2), pos(3), named("rest", 4)]),
        "cannot use both packed positional arguments and explicit named `params` argument"
    );
}

#[test]
fn a_declared_pattern_can_be_stored_into() {
    let t = tables();
    let mut g = gen(&t);
    g.push_scope();
    let p = Pattern::EnumVariant {
        enum_name: "Pair".to_string(),
        enum_name_span: sp(1),
        type_args: Vec::new(),
        variant: "Of".to_string(),
        payloads: vec![bind("left", 2), Pattern::Tuple { elements: vec![elem(bind("right", 3)), PatternElem::Rest(sp(4))], span: sp(3) }],
        span: sp(1),
    };
    g.declare_pattern(&p).unwrap();
    assert_eq!(g.local_count(), 2);
    assert!(g.store_pattern_value(&p).is_ok());
    // One temporary for the tuple, after the two declared names.
    assert_eq!(g.local_count(), 3);
    let c = g.code();
    assert!(matches!(c[0], Instr::UnpackEnumVariant { payload_count: 2, .. }));
    assert!(matches!(c[1], Instr::StoreLocal { slot: 2, .. }));
    assert!(matches!(c[2], Instr::LoadLocal { slot: 2, .. }));
    assert!(matches!(c[3], Instr::GetTupleField { index: 0, .. }));
    assert!(matches!(c[4], Instr::StoreLocal { slot: 1, .. }));
    assert!(matches!(c[5], Instr::StoreLocal { slot: 0, .. }));
    assert_eq!(c.len(), 6);
}

#[test]
fn jumps_to_labels_are_patched_once_placed() {
    let t = tables();
    let mut g = gen(&t);
    let exit = g.new_label();
    let again = g.new_label();
    g.emit_jump(exit, |target| Instr::JumpIfFalse { target });
    g.emit(Instr::Pop);
    g.emit_jump(again, |target| Instr::Jump { target });
    g.mark_label(exit);
    g.emit(Instr::PushUnit);
    g.patch_jumps();
    let c = g.code();
    assert!(matches!(c[0], Instr::JumpIfFalse { target: 3 }));
    assert!(matches!(c[1], Instr::Pop));
    // `again` was never placed, so its jump keeps the placeholder target.
    assert!(matches!(c[2], Instr::Jump { target: 0 }));
    assert!(matches!(c[3], Instr::PushUnit));
}

#[test]
fn each_pattern_reports_at_its_own_span() {
    let t = tables();
    let g = gen(&t);
    assert_eq!(g.span_of_pattern(&bind("x", 4)), sp(4));
    assert_eq!(g.span_of_pattern(&Pattern::Wildcard { span: sp(2) }), sp(2));
    assert_eq!(g.span_of_pattern(&Pattern::Tuple { elements: Vec::new(), span: sp(9) }), sp(9));
}
