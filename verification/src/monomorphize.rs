//! On-demand monomorphization pass (compile-time only).
//!
//! Generic functions called with explicit type arguments are instantiated under a
//! mangled name (`base$mono$Arg1__Arg2`), and those call sites are rewritten to call
//! the instance. Concrete uses of generic structs and enums (`Box<Int>`) get a
//! materialized declaration of their own. Other call sites are left unchanged.

use vstd::prelude::*;
use std::collections::VecDeque;
use crate::ast::{AstNode, CallArg, MatchArm, TypeExpr};
use crate::table::{entry_index, entry_value, find_entry, lemma_entry_index};
use crate::text::{before_first, chars_to_string, lemma_first_occurrence, occurs_at, push_str, split_once, str_chars, str_is, lit};

verus! {

/// `text` joined with `sep` between consecutive parts.
pub open spec fn join(parts: Seq<Seq<char>>, sep: Seq<char>) -> Seq<char>
    decreases parts.len(),
{
    if parts.len() == 0 {
        Seq::empty()
    } else if parts.len() == 1 {
        parts[0]
    } else {
        join(parts.drop_last(), sep) + sep + parts.last()
    }
}

/// The text of a concrete type: `Int`, `Option<Int>`, `()`, `(A, B)`, `[T]`,
/// `(A, B) => R`; `None` when it mentions `_` or a type parameter.
pub open spec fn type_text(t: TypeExpr) -> Option<Seq<char>>
    decreases t, 0nat,
{
    match t {
        TypeExpr::Named(n) => Some(n@),
        TypeExpr::EnumApp { name, args } => match type_texts(args@) {
            Some(ps) => Some(name@ + "<"@ + join(ps, ", "@) + ">"@),
            None => None,
        },
        TypeExpr::Unit => Some("()"@),
        TypeExpr::Tuple(parts) => match type_texts(parts@) {
            Some(ps) => Some("("@ + join(ps, ", "@) + ")"@),
            None => None,
        },
        TypeExpr::Array(inner) => match type_text(*inner) {
            Some(s) => Some("["@ + s + "]"@),
            None => None,
        },
        TypeExpr::Function { params, ret } => match (param_texts(params@), type_text(*ret)) {
            (Some(ps), Some(r)) => Some("("@ + join(ps, ", "@) + ") => "@ + r),
            _ => None,
        },
        TypeExpr::Infer => None,
        TypeExpr::TypeParam(_) => None,
    }
}

/// The texts of `ts`, when all of them are concrete.
pub open spec fn type_texts(ts: Seq<TypeExpr>) -> Option<Seq<Seq<char>>>
    decreases ts, 1nat,
{
    if ts.len() == 0 {
        Some(Seq::empty())
    } else {
        match (type_texts(ts.drop_last()), type_text(ts.last())) {
            (Some(ps), Some(p)) => Some(ps.push(p)),
            _ => None,
        }
    }
}

/// The texts of the parameter types of a function type, when all are concrete.
pub open spec fn param_texts(ps: Seq<crate::ast::FunctionTypeParam>) -> Option<Seq<Seq<char>>>
    decreases ps, 1nat,
{
    if ps.len() == 0 {
        Some(Seq::empty())
    } else {
        match (param_texts(ps.drop_last()), type_text(ps.last().ty)) {
            (Some(ts), Some(p)) => Some(ts.push(p)),
            _ => None,
        }
    }
}

/// The character a mangled name keeps for `c`: ASCII letters and digits, `_` otherwise.
pub open spec fn mangle_char(c: char) -> char {
    if ('a' <= c && c <= 'z') || ('A' <= c && c <= 'Z') || ('0' <= c && c <= '9') { c } else { '_' }
}

/// The synthetic name of the instance of `base` for the concrete type arguments `args`.
pub open spec fn mangled_name(base: Seq<char>, args: Seq<Seq<char>>) -> Seq<char> {
    if args.len() == 0 {
        base
    } else {
        base + "$mono$"@ + join(args.map_values(|a: Seq<char>| a.map_values(|c: char| mangle_char(c))), "__"@)
    }
}

/// Appends `sep` (unless `first`) and then `part`.
fn push_part(out: &mut Vec<char>, first: bool, sep: &str, part: &str)
    ensures
        final(out)@ == if first { old(out)@ + part@ } else { old(out)@ + sep@ + part@ },
{
    if !first {
        push_str(out, sep);
    }
    push_str(out, part);
}

/// The texts of `ts`, in order, when every one is concrete.
fn format_type_exprs(ts: &Vec<TypeExpr>) -> (r: Option<Vec<String>>)
    ensures
        match type_texts(ts@) {
            Some(ps) => r matches Some(v) && v@.len() == ps.len()
                && forall|i: int| 0 <= i < ps.len() ==> (#[trigger] v@[i])@ == ps[i],
            None => r is None,
        },
    decreases ts, 1nat,
{
    let mut out: Vec<String> = Vec::new();
    let mut i: usize = 0;
    while i < ts.len()
        invariant
            i <= ts@.len(),
            type_texts(ts@.take(i as int)) is Some,
            out@.len() == i,
            forall|j: int| 0 <= j < i ==> (#[trigger] out@[j])@ == type_texts(ts@.take(i as int))->Some_0[j],
        decreases ts@.len() - i,
    {
        assert(ts@.take(i + 1).drop_last() == ts@.take(i as int));
        assert(ts@.take(i + 1).last() == ts@[i as int]);
        proof {
            lemma_texts_len(ts@.take(i as int));
        }
        match format_type_expr(&ts[i]) {
            Some(s) => {
                out.push(s);
                proof {
                    lemma_texts_len(ts@.take(i + 1));
                }
            },
            None => {
                proof {
                    lemma_texts_none_extends(ts@, i as int);
                }
                return None;
            },
        }
        i += 1;
    }
    assert(ts@.take(ts@.len() as int) == ts@);
    proof {
        lemma_texts_len(ts@);
    }
    Some(out)
}

/// There is one text per type.
proof fn lemma_texts_len(ts: Seq<TypeExpr>)
    requires
        type_texts(ts) is Some,
    ensures
        type_texts(ts)->Some_0.len() == ts.len(),
    decreases ts.len(),
{
    if ts.len() > 0 {
        lemma_texts_len(ts.drop_last());
    }
}

/// There is one text per function-type parameter.
proof fn lemma_param_texts_len(ps: Seq<crate::ast::FunctionTypeParam>)
    requires
        param_texts(ps) is Some,
    ensures
        param_texts(ps)->Some_0.len() == ps.len(),
    decreases ps.len(),
{
    if ps.len() > 0 {
        lemma_param_texts_len(ps.drop_last());
    }
}

/// Once one type is not concrete, no longer list of them is.
proof fn lemma_texts_none_extends(ts: Seq<TypeExpr>, i: int)
    requires
        0 <= i < ts.len(),
        type_text(ts[i]) is None,
    ensures
        type_texts(ts) is None,
    decreases ts.len(),
{
    if i < ts.len() - 1 {
        lemma_texts_none_extends(ts.drop_last(), i);
    }
}

/// The same, for function-type parameters.
proof fn lemma_param_texts_none_extends(ps: Seq<crate::ast::FunctionTypeParam>, i: int)
    requires
        0 <= i < ps.len(),
        type_text(ps[i].ty) is None,
    ensures
        param_texts(ps) is None,
    decreases ps.len(),
{
    if i < ps.len() - 1 {
        lemma_param_texts_none_extends(ps.drop_last(), i);
    }
}

/// Appends `parts` joined with `sep` to `out`.
fn push_joined(out: &mut Vec<char>, parts: &Vec<String>, sep: &str)
    ensures
        final(out)@ == old(out)@ + join(parts@.map_values(|s: String| s@), sep@),
{
    let ghost ps = parts@.map_values(|s: String| s@);
    let mut i: usize = 0;
    while i < parts.len()
        invariant
            i <= parts@.len(),
            ps == parts@.map_values(|s: String| s@),
            out@ == old(out)@ + join(ps.take(i as int), sep@),
        decreases parts@.len() - i,
    {
        assert(ps.take(i + 1).drop_last() == ps.take(i as int));
        push_part(out, i == 0, sep, parts[i].as_str());
        assert(out@ =~= old(out)@ + join(ps.take(i + 1), sep@));
        i += 1;
    }
    assert(ps.take(parts@.len() as int) == ps);
}

/// The text of a concrete type (see `type_text`).
fn format_type_expr(te: &TypeExpr) -> (r: Option<String>)
    ensures
        match type_text(*te) {
            Some(s) => r matches Some(x) && x@ == s,
            None => r is None,
        },
    decreases te, 0nat,
{
    match te {
        TypeExpr::Named(n) => Some(n.clone()),
        TypeExpr::EnumApp { name, args } => {
            let parts = match format_type_exprs(args) {
                Some(p) => p,
                None => {
                    return None;
                },
            };
            proof {
                assert(parts@.map_values(|s: String| s@) =~= type_texts(args@)->Some_0);
            }
            let mut out: Vec<char> = Vec::new();
            push_str(&mut out, name.as_str());
            push_str(&mut out, "<");
            push_joined(&mut out, &parts, ", ");
            push_str(&mut out, ">");
            Some(chars_to_string(out.as_slice()))
        },
        TypeExpr::Unit => {
            Some(lit("()"))
        },
        TypeExpr::Tuple(parts) => {
            let texts = match format_type_exprs(parts) {
                Some(p) => p,
                None => {
                    return None;
                },
            };
            proof {
                assert(texts@.map_values(|s: String| s@) =~= type_texts(parts@)->Some_0);
            }
            let mut out: Vec<char> = Vec::new();
            push_str(&mut out, "(");
            push_joined(&mut out, &texts, ", ");
            push_str(&mut out, ")");
            Some(chars_to_string(out.as_slice()))
        },
        TypeExpr::Array(inner) => {
            let s = match format_type_expr(&**inner) {
                Some(s) => s,
                None => {
                    return None;
                },
            };
            let mut out: Vec<char> = Vec::new();
            push_str(&mut out, "[");
            push_str(&mut out, s.as_str());
            push_str(&mut out, "]");
            Some(chars_to_string(out.as_slice()))
        },
        TypeExpr::Function { params, ret } => {
            let mut texts: Vec<String> = Vec::new();
            let mut i: usize = 0;
            while i < params.len()
                invariant
                    i <= params@.len(),
                    *te == (TypeExpr::Function { params: *params, ret: *ret }),
                    param_texts(params@.take(i as int)) is Some,
                    texts@.len() == i,
                    forall|j: int| 0 <= j < i ==> (#[trigger] texts@[j])@ == param_texts(params@.take(i as int))->Some_0[j],
                decreases params@.len() - i,
            {
                assert(params@.take(i + 1).drop_last() == params@.take(i as int));
                assert(params@.take(i + 1).last() == params@[i as int]);
                proof {
                    lemma_param_texts_len(params@.take(i as int));
                }
                proof {
                    assert(decreases_to!(*te => te->params));
                    assert(decreases_to!(*params => params[i as int]));
                    assert(decreases_to!(*te => params[i as int].ty));
                }
                match format_type_expr(&params[i].ty) {
                    Some(s) => {
                        texts.push(s);
                        proof {
                            lemma_param_texts_len(params@.take(i + 1));
                        }
                    },
                    None => {
                        proof {
                            lemma_param_texts_none_extends(params@, i as int);
                        }
                        return None;
                    },
                }
                i += 1;
            }
            assert(params@.take(params@.len() as int) == params@);
            proof {
                lemma_param_texts_len(params@);
            }
            let r = match format_type_expr(&**ret) {
                Some(s) => s,
                None => {
                    return None;
                },
            };
            proof {
                assert(texts@.map_values(|s: String| s@) =~= param_texts(params@)->Some_0);
            }
            let mut out: Vec<char> = Vec::new();
            push_str(&mut out, "(");
            push_joined(&mut out, &texts, ", ");
            push_str(&mut out, ") => ");
            push_str(&mut out, r.as_str());
            Some(chars_to_string(out.as_slice()))
        },
        TypeExpr::Infer => None,
        TypeExpr::TypeParam(_) => None,
    }
}

/// The name of the instance of `base` for `concrete_args` (see `mangled_name`).
fn mangle_function_instance_name(base: &String, concrete_args: &Vec<String>) -> (r: String)
    ensures
        r@ == mangled_name(base@, concrete_args@.map_values(|s: String| s@)),
{
    if concrete_args.len() == 0 {
        return base.clone();
    }
    let ghost args = concrete_args@.map_values(|s: String| s@);
    let ghost mangled = args.map_values(|a: Seq<char>| a.map_values(|c: char| mangle_char(c)));
    let mut parts: Vec<String> = Vec::new();
    let mut i: usize = 0;
    while i < concrete_args.len()
        invariant
            i <= concrete_args@.len(),
            args == concrete_args@.map_values(|s: String| s@),
            mangled == args.map_values(|a: Seq<char>| a.map_values(|c: char| mangle_char(c))),
            parts@.len() == i,
            forall|j: int| 0 <= j < i ==> (#[trigger] parts@[j])@ == mangled[j],
        decreases concrete_args@.len() - i,
    {
        let cs = str_chars(concrete_args[i].as_str());
        let mut m: Vec<char> = Vec::new();
        let mut k: usize = 0;
        while k < cs.len()
            invariant
                k <= cs@.len(),
                m@ == cs@.take(k as int).map_values(|c: char| mangle_char(c)),
            decreases cs@.len() - k,
        {
            let c = cs[k];
            let keep = ('a' <= c && c <= 'z') || ('A' <= c && c <= 'Z') || ('0' <= c && c <= '9');
            m.push(if keep { c } else { '_' });
            assert(cs@.take(k + 1).map_values(|c: char| mangle_char(c))
                =~= cs@.take(k as int).map_values(|c: char| mangle_char(c)).push(mangle_char(c)));
            k += 1;
        }
        assert(cs@.take(cs@.len() as int) == cs@);
        parts.push(chars_to_string(m.as_slice()));
        i += 1;
    }
    assert(parts@.map_values(|s: String| s@) =~= mangled);
    let mut out: Vec<char> = Vec::new();
    push_str(&mut out, base.as_str());
    push_str(&mut out, "$mono$");
    push_joined(&mut out, &parts, "__");
    chars_to_string(out.as_slice())
}

/// The last template registered under `name`, if any.
fn find_template<'a>(templates: &Vec<(String, &'a AstNode)>, name: &String) -> (r: Option<&'a AstNode>)
    ensures
        match entry_value(tpl_view(templates@), name@) {
            Some(t) => r matches Some(x) && *x == t,
            None => r is None,
        },
{
    proof { lemma_tpl_view_index(templates@, name@); }
    match find_entry(templates, name.as_str()) {
        Some(i) => {
            proof { lemma_entry_index(templates@, name@); }
            Some(templates[i].1)
        },
        None => None,
    }
}

proof fn lemma_tpl_view_index(t: Seq<(String, &AstNode)>, name: Seq<char>)
    ensures
        entry_index(tpl_view(t), name) == entry_index(t, name),
    decreases t.len(),
{
    if t.len() > 0 {
        assert(tpl_view(t).drop_last() =~= tpl_view(t.drop_last()));
        lemma_tpl_view_index(t.drop_last(), name);
    }
}

/// Whether `s` is among `v`.
fn contains_string(v: &Vec<String>, s: &String) -> (r: bool)
    ensures
        r == exists|i: int| 0 <= i < v@.len() && (#[trigger] v@[i])@ == s@,
{
    let mut i: usize = 0;
    while i < v.len()
        invariant
            i <= v@.len(),
            forall|j: int| 0 <= j < i ==> (#[trigger] v@[j])@ != s@,
        decreases v@.len() - i,
    {
        if str_is(&v[i], s.as_str()) {
            return true;
        }
        i += 1;
    }
    false
}

/// An item the pass adds: a function, struct or enum without type parameters.
pub open spec fn monomorphic_decl(n: AstNode) -> bool {
    match n {
        AstNode::Function { type_params, .. } => type_params@.len() == 0,
        AstNode::StructDef { type_params, .. } => type_params@.len() == 0,
        AstNode::EnumDef { type_params, .. } => type_params@.len() == 0,
        _ => false,
    }
}

/// An instance to generate: its name and the texts of its concrete type arguments.
pub type Instance = (Seq<char>, Seq<Seq<char>>);

/// The names held in `v`.
pub open spec fn names_of(v: Seq<String>) -> Seq<Seq<char>> {
    v.map_values(|s: String| s@)
}

/// The instance requests queued in `q`.
pub open spec fn requests_of(q: Seq<(String, Vec<String>)>) -> Seq<Instance> {
    q.map_values(|p: (String, Vec<String>)| (p.0@, names_of(p.1@)))
}

/// Records the instances `xs` in order: each whose name is not among `seen` yet is added
/// to the names seen and queued. The names seen afterwards, and what was queued.
pub open spec fn register(seen: Seq<Seq<char>>, xs: Seq<Instance>) -> (Seq<Seq<char>>, Seq<Instance>)
    decreases xs.len(),
{
    if xs.len() == 0 {
        (seen, Seq::empty())
    } else {
        let (s, q) = register(seen, xs.drop_last());
        let x = xs.last();
        if s.contains(x.0) {
            (s, q)
        } else {
            (s.push(x.0), q.push(x))
        }
    }
}

/// `seen`/`wanted` went from `s0`/`q0` to `s1`/`q1` by recording the instances `xs`.
pub open spec fn registered(
    s0: Seq<String>,
    q0: Seq<(String, Vec<String>)>,
    s1: Seq<String>,
    q1: Seq<(String, Vec<String>)>,
    xs: Seq<Instance>,
) -> bool {
    &&& names_of(s1) == register(names_of(s0), xs).0
    &&& requests_of(q1) == requests_of(q0) + register(names_of(s0), xs).1
}

proof fn lemma_register_concat(seen: Seq<Seq<char>>, xs: Seq<Instance>, ys: Seq<Instance>)
    ensures
        register(seen, xs + ys) == (
            register(register(seen, xs).0, ys).0,
            register(seen, xs).1 + register(register(seen, xs).0, ys).1,
        ),
    decreases ys.len(),
{
    if ys.len() == 0 {
        assert(xs + ys =~= xs);
        assert(register(seen, xs).1 + Seq::<Instance>::empty() =~= register(seen, xs).1);
    } else {
        assert((xs + ys).drop_last() =~= xs + ys.drop_last());
        assert((xs + ys).last() == ys.last());
        lemma_register_concat(seen, xs, ys.drop_last());
        let (s, q) = register(register(seen, xs).0, ys.drop_last());
        if !s.contains(ys.last().0) {
            assert(register(seen, xs).1 + q.push(ys.last()) =~= (register(seen, xs).1 + q).push(ys.last()));
        }
    }
}

/// Recording `xs` and then `ys` records `xs + ys`.
proof fn lemma_registered_trans(
    s0: Seq<String>,
    q0: Seq<(String, Vec<String>)>,
    s1: Seq<String>,
    q1: Seq<(String, Vec<String>)>,
    s2: Seq<String>,
    q2: Seq<(String, Vec<String>)>,
    xs: Seq<Instance>,
    ys: Seq<Instance>,
)
    requires
        registered(s0, q0, s1, q1, xs),
        registered(s1, q1, s2, q2, ys),
    ensures
        registered(s0, q0, s2, q2, xs + ys),
{
    lemma_register_concat(names_of(s0), xs, ys);
    assert(requests_of(q2) =~= requests_of(q0) + register(names_of(s0), xs + ys).1);
}

/// Recording nothing changes nothing.
proof fn lemma_registered_none(s: Seq<String>, q: Seq<(String, Vec<String>)>)
    ensures
        registered(s, q, s, q, Seq::empty()),
{
    assert(requests_of(q) + Seq::<Instance>::empty() =~= requests_of(q));
}

/// The templates of a table of references, by value.
pub open spec fn tpl_view(t: Seq<(String, &AstNode)>) -> Seq<(String, AstNode)> {
    t.map_values(|p: (String, &AstNode)| (p.0, *p.1))
}

/// The generic functions among `items`, each under its name, in order.
pub open spec fn fn_templates(items: Seq<AstNode>) -> Seq<(String, AstNode)>
    decreases items.len(),
{
    if items.len() == 0 {
        Seq::empty()
    } else {
        let t = fn_templates(items.drop_last());
        match items.last() {
            AstNode::Function { name, type_params, .. } => if type_params@.len() > 0 { t.push((name, items.last())) } else { t },
            _ => t,
        }
    }
}

/// The instance a call of `callee` with the explicit type arguments `type_args` asks for:
/// when `callee` is a generic function template and every argument is concrete.
pub open spec fn call_instance(callee: Seq<char>, type_args: Seq<TypeExpr>, tpl: Seq<(String, AstNode)>) -> Option<Instance> {
    match entry_value(tpl, callee) {
        Some(t) => if t matches AstNode::Function { type_params, .. } && type_params@.len() > 0 {
            match type_texts(type_args) {
                Some(ts) => if ts.len() > 0 { Some((mangled_name(callee, ts), ts)) } else { None },
                None => None,
            }
        } else {
            None
        },
        None => None,
    }
}

/// `r` is `e` with each call that asks for an instance (see `call_instance`) calling that
/// instance, without type arguments. Calls are searched in function bodies and statements,
/// not inside call arguments, parameter defaults, lambdas, `await`, dictionary literals or
/// invocations.
pub open spec fn rw_ok(e: AstNode, r: AstNode, tpl: Seq<(String, AstNode)>) -> bool
    decreases e, 0nat,
{
    match e {
        AstNode::Call { callee, type_args, arguments, span } => match call_instance(callee@, type_args@, tpl) {
            Some(x) => r matches AstNode::Call { callee: c, type_args: t, arguments: a, span: s }
                && c@ == x.0 && t@.len() == 0 && a == arguments && s == span,
            None => r == e,
        },
        AstNode::MethodCall { receiver, method, arguments, span } =>
            r matches AstNode::MethodCall { receiver: x, method: m, arguments: a, span: s }
                && rw_ok(*receiver, *x, tpl) && m == method && args_ok(arguments@, a@, tpl) && s == span,
        AstNode::TypeMethodCall { ty_name, method, arguments, span } =>
            r matches AstNode::TypeMethodCall { ty_name: t, method: m, arguments: a, span: s }
                && t == ty_name && m == method && args_ok(arguments@, a@, tpl) && s == span,
        AstNode::StructLiteral { name, type_args, fields, update, span } =>
            r matches AstNode::StructLiteral { name: n, type_args: t, fields: f, update: u, span: s }
                && n == name && t == type_args && fields_ok(fields@, f@, tpl) && box_opt_ok(update, u, tpl) && s == span,
        AstNode::EnumVariantCtor { enum_name, type_args, variant, payloads, span } =>
            r matches AstNode::EnumVariantCtor { enum_name: n, type_args: t, variant: v, payloads: p, span: s }
                && n == enum_name && t == type_args && v == variant && nodes_ok(payloads@, p@, tpl) && s == span,
        AstNode::ArrayLiteral { elements, span } =>
            r matches AstNode::ArrayLiteral { elements: x, span: s } && nodes_ok(elements@, x@, tpl) && s == span,
        AstNode::TupleLiteral { elements, span } =>
            r matches AstNode::TupleLiteral { elements: x, span: s } && nodes_ok(elements@, x@, tpl) && s == span,
        AstNode::UnaryOp { op, operand, span } =>
            r matches AstNode::UnaryOp { op: o, operand: x, span: s } && o == op && rw_ok(*operand, *x, tpl) && s == span,
        AstNode::BinaryOp { left, op, right, span } =>
            r matches AstNode::BinaryOp { left: l, op: o, right: x, span: s }
                && rw_ok(*left, *l, tpl) && o == op && rw_ok(*right, *x, tpl) && s == span,
        AstNode::FieldAccess { base, field, span } =>
            r matches AstNode::FieldAccess { base: b, field: f, span: s } && rw_ok(*base, *b, tpl) && f == field && s == span,
        AstNode::ArrayIndex { base, index, span } =>
            r matches AstNode::ArrayIndex { base: b, index: i, span: s }
                && rw_ok(*base, *b, tpl) && rw_ok(*index, *i, tpl) && s == span,
        AstNode::TupleField { base, index, span } =>
            r matches AstNode::TupleField { base: b, index: i, span: s } && rw_ok(*base, *b, tpl) && i == index && s == span,
        AstNode::AssignExpr { lhs, rhs, span } =>
            r matches AstNode::AssignExpr { lhs: l, rhs: x, span: s } && rw_ok(*lhs, *l, tpl) && rw_ok(*rhs, *x, tpl) && s == span,
        AstNode::CompoundAssign { lhs, op, rhs, span } =>
            r matches AstNode::CompoundAssign { lhs: l, op: o, rhs: x, span: s }
                && rw_ok(*lhs, *l, tpl) && o == op && rw_ok(*rhs, *x, tpl) && s == span,
        AstNode::Assign { pattern, value, span } =>
            r matches AstNode::Assign { pattern: p, value: v, span: s } && p == pattern && rw_ok(*value, *v, tpl) && s == span,
        AstNode::Let { pattern, type_annotation, initializer, is_const, is_exported, span } =>
            r matches AstNode::Let { pattern: p, type_annotation: t, initializer: i, is_const: c, is_exported: x, span: s }
                && p == pattern && t == type_annotation && box_opt_ok(initializer, i, tpl) && c == is_const
                && x == is_exported && s == span,
        AstNode::Return { value, span } =>
            r matches AstNode::Return { value: v, span: s } && box_opt_ok(value, v, tpl) && s == span,
        AstNode::If { condition, then_body, else_body, span } =>
            r matches AstNode::If { condition: c, then_body: t, else_body: x, span: s }
                && rw_ok(*condition, *c, tpl) && nodes_ok(then_body@, t@, tpl) && nodes_opt_ok(else_body, x, tpl) && s == span,
        AstNode::IfLet { pattern, value, then_body, else_body, span } =>
            r matches AstNode::IfLet { pattern: p, value: v, then_body: t, else_body: x, span: s }
                && p == pattern && rw_ok(*value, *v, tpl) && nodes_ok(then_body@, t@, tpl)
                && nodes_opt_ok(else_body, x, tpl) && s == span,
        AstNode::While { condition, body, span } =>
            r matches AstNode::While { condition: c, body: b, span: s }
                && rw_ok(*condition, *c, tpl) && nodes_ok(body@, b@, tpl) && s == span,
        AstNode::Match { scrutinee, arms, span } =>
            r matches AstNode::Match { scrutinee: x, arms: a, span: s }
                && rw_ok(*scrutinee, *x, tpl) && arms_ok(arms@, a@, tpl) && s == span,
        AstNode::Block { body, closing_span } =>
            r matches AstNode::Block { body: b, closing_span: c } && nodes_ok(body@, b@, tpl) && c == closing_span,
        AstNode::Program(body) => r matches AstNode::Program(b) && nodes_ok(body@, b@, tpl),
        AstNode::Function {
            name, extension_receiver, type_params, params, return_type, body, name_span, closing_span, is_exported, is_async,
        } => r matches AstNode::Function {
            name: n, extension_receiver: er, type_params: tp, params: ps, return_type: rt, body: b, name_span: ns,
            closing_span: cs, is_exported: ie, is_async: ia,
        } && n == name && er == extension_receiver && tp == type_params && ps == params && rt == return_type
            && nodes_ok(body@, b@, tpl) && ns == name_span && cs == closing_span && ie == is_exported && ia == is_async,
        _ => r == e,
    }
}

pub open spec fn box_opt_ok(a: Option<Box<AstNode>>, b: Option<Box<AstNode>>, tpl: Seq<(String, AstNode)>) -> bool
    decreases a, 1nat,
{
    match (a, b) {
        (Some(x), Some(y)) => rw_ok(*x, *y, tpl),
        (None, None) => true,
        _ => false,
    }
}

pub open spec fn nodes_ok(v: Seq<AstNode>, w: Seq<AstNode>, tpl: Seq<(String, AstNode)>) -> bool
    decreases v, 1nat,
{
    &&& v.len() == w.len()
    &&& v.len() > 0 ==> nodes_ok(v.drop_last(), w.drop_last(), tpl) && rw_ok(v.last(), w.last(), tpl)
}

pub open spec fn nodes_opt_ok(a: Option<Vec<AstNode>>, b: Option<Vec<AstNode>>, tpl: Seq<(String, AstNode)>) -> bool
    decreases a, 2nat,
{
    match (a, b) {
        (Some(x), Some(y)) => nodes_ok(x@, y@, tpl),
        (None, None) => true,
        _ => false,
    }
}

pub open spec fn args_ok(v: Seq<CallArg>, w: Seq<CallArg>, tpl: Seq<(String, AstNode)>) -> bool
    decreases v, 1nat,
{
    &&& v.len() == w.len()
    &&& v.len() > 0 ==> args_ok(v.drop_last(), w.drop_last(), tpl) && match (v.last(), w.last()) {
        (CallArg::Positional(x), CallArg::Positional(y)) => rw_ok(x, y, tpl),
        (CallArg::Named { name, name_span, value }, CallArg::Named { name: n, name_span: ns, value: y }) =>
            n == name && ns == name_span && rw_ok(value, y, tpl),
        _ => false,
    }
}

pub open spec fn fields_ok(v: Seq<(String, AstNode)>, w: Seq<(String, AstNode)>, tpl: Seq<(String, AstNode)>) -> bool
    decreases v, 1nat,
{
    &&& v.len() == w.len()
    &&& v.len() > 0 ==> fields_ok(v.drop_last(), w.drop_last(), tpl) && w.last().0 == v.last().0
        && rw_ok(v.last().1, w.last().1, tpl)
}

pub open spec fn arms_ok(v: Seq<MatchArm>, w: Seq<MatchArm>, tpl: Seq<(String, AstNode)>) -> bool
    decreases v, 1nat,
{
    &&& v.len() == w.len()
    &&& v.len() > 0 ==> arms_ok(v.drop_last(), w.drop_last(), tpl) && w.last().patterns == v.last().patterns
        && box_opt_ok(v.last().guard, w.last().guard, tpl) && rw_ok(*v.last().body, *w.last().body, tpl)
        && w.last().span == v.last().span
}

/// The instances the calls in `e` ask for, in the order the rewrite visits them.
pub open spec fn insts(e: AstNode, tpl: Seq<(String, AstNode)>) -> Seq<Instance>
    decreases e, 0nat,
{
    match e {
        AstNode::Call { callee, type_args, .. } => match call_instance(callee@, type_args@, tpl) {
            Some(x) => seq![x],
            None => Seq::empty(),
        },
        AstNode::MethodCall { receiver, arguments, .. } => insts(*receiver, tpl) + args_insts(arguments@, tpl),
        AstNode::TypeMethodCall { arguments, .. } => args_insts(arguments@, tpl),
        AstNode::StructLiteral { fields, update, .. } => fields_insts(fields@, tpl) + box_opt_insts(update, tpl),
        AstNode::EnumVariantCtor { payloads, .. } => nodes_insts(payloads@, tpl),
        AstNode::ArrayLiteral { elements, .. } => nodes_insts(elements@, tpl),
        AstNode::TupleLiteral { elements, .. } => nodes_insts(elements@, tpl),
        AstNode::UnaryOp { operand, .. } => insts(*operand, tpl),
        AstNode::BinaryOp { left, right, .. } => insts(*left, tpl) + insts(*right, tpl),
        AstNode::FieldAccess { base, .. } => insts(*base, tpl),
        AstNode::ArrayIndex { base, index, .. } => insts(*base, tpl) + insts(*index, tpl),
        AstNode::TupleField { base, .. } => insts(*base, tpl),
        AstNode::AssignExpr { lhs, rhs, .. } => insts(*lhs, tpl) + insts(*rhs, tpl),
        AstNode::CompoundAssign { lhs, rhs, .. } => insts(*lhs, tpl) + insts(*rhs, tpl),
        AstNode::Assign { value, .. } => insts(*value, tpl),
        AstNode::Let { initializer, .. } => box_opt_insts(initializer, tpl),
        AstNode::Return { value, .. } => box_opt_insts(value, tpl),
        AstNode::If { condition, then_body, else_body, .. } =>
            insts(*condition, tpl) + nodes_insts(then_body@, tpl) + nodes_opt_insts(else_body, tpl),
        AstNode::IfLet { value, then_body, else_body, .. } =>
            insts(*value, tpl) + nodes_insts(then_body@, tpl) + nodes_opt_insts(else_body, tpl),
        AstNode::While { condition, body, .. } => insts(*condition, tpl) + nodes_insts(body@, tpl),
        AstNode::Match { scrutinee, arms, .. } => insts(*scrutinee, tpl) + arms_insts(arms@, tpl),
        AstNode::Block { body, .. } => nodes_insts(body@, tpl),
        AstNode::Program(body) => nodes_insts(body@, tpl),
        AstNode::Function { body, .. } => nodes_insts(body@, tpl),
        _ => Seq::empty(),
    }
}

pub open spec fn box_opt_insts(a: Option<Box<AstNode>>, tpl: Seq<(String, AstNode)>) -> Seq<Instance>
    decreases a, 1nat,
{
    match a {
        Some(x) => insts(*x, tpl),
        None => Seq::empty(),
    }
}

pub open spec fn nodes_insts(v: Seq<AstNode>, tpl: Seq<(String, AstNode)>) -> Seq<Instance>
    decreases v, 1nat,
{
    if v.len() == 0 {
        Seq::empty()
    } else {
        nodes_insts(v.drop_last(), tpl) + insts(v.last(), tpl)
    }
}

pub open spec fn nodes_opt_insts(a: Option<Vec<AstNode>>, tpl: Seq<(String, AstNode)>) -> Seq<Instance>
    decreases a, 2nat,
{
    match a {
        Some(x) => nodes_insts(x@, tpl),
        None => Seq::empty(),
    }
}

pub open spec fn args_insts(v: Seq<CallArg>, tpl: Seq<(String, AstNode)>) -> Seq<Instance>
    decreases v, 1nat,
{
    if v.len() == 0 {
        Seq::empty()
    } else {
        args_insts(v.drop_last(), tpl) + match v.last() {
            CallArg::Positional(x) => insts(x, tpl),
            CallArg::Named { value, .. } => insts(value, tpl),
        }
    }
}

pub open spec fn fields_insts(v: Seq<(String, AstNode)>, tpl: Seq<(String, AstNode)>) -> Seq<Instance>
    decreases v, 1nat,
{
    if v.len() == 0 {
        Seq::empty()
    } else {
        fields_insts(v.drop_last(), tpl) + insts(v.last().1, tpl)
    }
}

pub open spec fn arms_insts(v: Seq<MatchArm>, tpl: Seq<(String, AstNode)>) -> Seq<Instance>
    decreases v, 1nat,
{
    if v.len() == 0 {
        Seq::empty()
    } else {
        arms_insts(v.drop_last(), tpl) + box_opt_insts(v.last().guard, tpl) + insts(*v.last().body, tpl)
    }
}

/// Rewrites the calls of generic functions with explicit, concrete type arguments in
/// `expr` to calls of their instances (see `rw_ok`), recording each instance asked for
/// (see `register`). Function declarations are left as they are.
fn rewrite_expr(
    expr: AstNode,
    templates: &Vec<(String, &AstNode)>,
    wanted: &mut VecDeque<(String, Vec<String>)>,
    seen: &mut Vec<String>,
) -> (r: AstNode)
    ensures
        rw_ok(expr, r, tpl_view(templates@)),
        registered(old(seen)@, old(wanted)@, final(seen)@, final(wanted)@, insts(expr, tpl_view(templates@))),
    decreases expr, 0nat,
{
    let ghost s0 = seen@;
    let ghost q0 = wanted@;
    match expr {
        AstNode::Call { callee, type_args, arguments, span } => {
            let generic = match find_template(templates, &callee) {
                Some(t) => match t {
                    AstNode::Function { type_params, .. } => type_params.len() > 0,
                    _ => false,
                },
                None => false,
            };
            if generic {
                match format_type_exprs(&type_args) {
                    Some(concrete) => {
                        if concrete.len() > 0 {
                            assert(names_of(concrete@) =~= type_texts(type_args@)->Some_0);
                            let mono_name = mangle_function_instance_name(&callee, &concrete);
                            let ghost x: Instance = (mono_name@, names_of(concrete@));
                            let ghost known = names_of(s0).contains(mono_name@);
                            if !contains_string(seen, &mono_name) {
                                proof {
                                    if known {
                                        let i = choose|i: int| 0 <= i < names_of(s0).len() && names_of(s0)[i] == mono_name@;
                                        assert(seen@[i]@ == mono_name@);
                                    }
                                }
                                seen.push(mono_name.clone());
                                wanted.push_back((mono_name.clone(), concrete));
                                proof {
                                    assert(names_of(seen@) =~= names_of(s0).push(mono_name@));
                                    assert(requests_of(wanted@) =~= requests_of(q0).push(x));
                                }
                            } else {
                                proof {
                                    let i = choose|i: int| 0 <= i < seen@.len() && (#[trigger] seen@[i])@ == mono_name@;
                                    assert(names_of(s0)[i] == mono_name@);
                                    assert(requests_of(wanted@) =~= requests_of(q0) + Seq::<Instance>::empty());
                                }
                            }
                            assert(seq![x].drop_last() =~= Seq::<Instance>::empty());
                            assert(seq![x].last() == x);
                            assert(register(names_of(s0), Seq::<Instance>::empty()) == (names_of(s0), Seq::<Instance>::empty()));
                            assert(call_instance(callee@, type_args@, tpl_view(templates@)) == Some(x));
                            assert(insts(AstNode::Call { callee, type_args, arguments, span }, tpl_view(templates@)) == seq![x]);
                            proof {
                                if known {
                                    assert(register(names_of(s0), seq![x]) == (names_of(s0), Seq::<Instance>::empty()));
                                    assert(requests_of(wanted@) =~= requests_of(q0) + Seq::<Instance>::empty());
                                } else {
                                    assert(register(names_of(s0), seq![x]) == (names_of(s0).push(x.0), seq![x]));
                                    assert(requests_of(wanted@) =~= requests_of(q0) + seq![x]);
                                }
                            }
                            return AstNode::Call { callee: mono_name, type_args: Vec::new(), arguments, span };
                        }
                    },
                    None => {},
                }
            }
            proof { lemma_registered_none(seen@, wanted@); }
            AstNode::Call { callee, type_args, arguments, span }
        },
        AstNode::MethodCall { receiver, method, arguments, span } => {
            let ghost r0 = *receiver;
            let ghost a0 = arguments@;
            let receiver = rewrite_box(receiver, templates, wanted, seen);
            let ghost s1 = seen@;
            let ghost q1 = wanted@;
            let arguments = rewrite_args(arguments, templates, wanted, seen);
            proof { lemma_registered_trans(s0, q0, s1, q1, seen@, wanted@, insts(r0, tpl_view(templates@)), args_insts(a0, tpl_view(templates@))); }
            AstNode::MethodCall { receiver, method, arguments, span }
        },
        AstNode::TypeMethodCall { ty_name, method, arguments, span } => {
            let arguments = rewrite_args(arguments, templates, wanted, seen);
            AstNode::TypeMethodCall { ty_name, method, arguments, span }
        },
        AstNode::StructLiteral { name, type_args, fields, update, span } => {
            let ghost fs = fields@;
            let fields = rewrite_fields(fields, templates, wanted, seen);
            let ghost s1 = seen@;
            let ghost q1 = wanted@;
            let ghost u0 = update;
            let update = rewrite_box_opt(update, templates, wanted, seen);
            proof { lemma_registered_trans(s0, q0, s1, q1, seen@, wanted@, fields_insts(fs, tpl_view(templates@)), box_opt_insts(u0, tpl_view(templates@))); }
            AstNode::StructLiteral { name, type_args, fields, update, span }
        },
        AstNode::EnumVariantCtor { enum_name, type_args, variant, payloads, span } => {
            let payloads = rewrite_nodes(payloads, templates, wanted, seen);
            AstNode::EnumVariantCtor { enum_name, type_args, variant, payloads, span }
        },
        AstNode::ArrayLiteral { elements, span } =>
            AstNode::ArrayLiteral { elements: rewrite_nodes(elements, templates, wanted, seen), span },
        AstNode::TupleLiteral { elements, span } =>
            AstNode::TupleLiteral { elements: rewrite_nodes(elements, templates, wanted, seen), span },
        AstNode::UnaryOp { op, operand, span } =>
            AstNode::UnaryOp { op, operand: rewrite_box(operand, templates, wanted, seen), span },
        AstNode::BinaryOp { left, op, right, span } => {
            let ghost l0 = *left;
            let left = rewrite_box(left, templates, wanted, seen);
            let ghost s1 = seen@;
            let ghost q1 = wanted@;
            let ghost r0 = *right;
            let right = rewrite_box(right, templates, wanted, seen);
            proof { lemma_registered_trans(s0, q0, s1, q1, seen@, wanted@, insts(l0, tpl_view(templates@)), insts(r0, tpl_view(templates@))); }
            AstNode::BinaryOp { left, op, right, span }
        },
        AstNode::FieldAccess { base, field, span } =>
            AstNode::FieldAccess { base: rewrite_box(base, templates, wanted, seen), field, span },
        AstNode::ArrayIndex { base, index, span } => {
            let ghost b0 = *base;
            let base = rewrite_box(base, templates, wanted, seen);
            let ghost s1 = seen@;
            let ghost q1 = wanted@;
            let ghost i0 = *index;
            let index = rewrite_box(index, templates, wanted, seen);
            proof { lemma_registered_trans(s0, q0, s1, q1, seen@, wanted@, insts(b0, tpl_view(templates@)), insts(i0, tpl_view(templates@))); }
            AstNode::ArrayIndex { base, index, span }
        },
        AstNode::TupleField { base, index, span } =>
            AstNode::TupleField { base: rewrite_box(base, templates, wanted, seen), index, span },
        AstNode::AssignExpr { lhs, rhs, span } => {
            let ghost l0 = *lhs;
            let lhs = rewrite_box(lhs, templates, wanted, seen);
            let ghost s1 = seen@;
            let ghost q1 = wanted@;
            let ghost r0 = *rhs;
            let rhs = rewrite_box(rhs, templates, wanted, seen);
            proof { lemma_registered_trans(s0, q0, s1, q1, seen@, wanted@, insts(l0, tpl_view(templates@)), insts(r0, tpl_view(templates@))); }
            AstNode::AssignExpr { lhs, rhs, span }
        },
        AstNode::CompoundAssign { lhs, op, rhs, span } => {
            let ghost l0 = *lhs;
            let lhs = rewrite_box(lhs, templates, wanted, seen);
            let ghost s1 = seen@;
            let ghost q1 = wanted@;
            let ghost r0 = *rhs;
            let rhs = rewrite_box(rhs, templates, wanted, seen);
            proof { lemma_registered_trans(s0, q0, s1, q1, seen@, wanted@, insts(l0, tpl_view(templates@)), insts(r0, tpl_view(templates@))); }
            AstNode::CompoundAssign { lhs, op, rhs, span }
        },
        AstNode::Assign { pattern, value, span } =>
            AstNode::Assign { pattern, value: rewrite_box(value, templates, wanted, seen), span },
        AstNode::Let { pattern, type_annotation, initializer, is_const, is_exported, span } => {
            let initializer = rewrite_box_opt(initializer, templates, wanted, seen);
            AstNode::Let { pattern, type_annotation, initializer, is_const, is_exported, span }
        },
        AstNode::Return { value, span } =>
            AstNode::Return { value: rewrite_box_opt(value, templates, wanted, seen), span },
        AstNode::If { condition, then_body, else_body, span } => {
            let ghost c0 = *condition;
            let condition = rewrite_box(condition, templates, wanted, seen);
            let ghost s1 = seen@;
            let ghost q1 = wanted@;
            let ghost t0 = then_body@;
            let then_body = rewrite_nodes(then_body, templates, wanted, seen);
            let ghost s2 = seen@;
            let ghost q2 = wanted@;
            let ghost e0 = else_body;
            let else_body = rewrite_nodes_opt(else_body, templates, wanted, seen);
            proof {
                lemma_registered_trans(s0, q0, s1, q1, s2, q2, insts(c0, tpl_view(templates@)), nodes_insts(t0, tpl_view(templates@)));
                lemma_registered_trans(s0, q0, s2, q2, seen@, wanted@,
                    insts(c0, tpl_view(templates@)) + nodes_insts(t0, tpl_view(templates@)), nodes_opt_insts(e0, tpl_view(templates@)));
            }
            AstNode::If { condition, then_body, else_body, span }
        },
        AstNode::IfLet { pattern, value, then_body, else_body, span } => {
            let ghost c0 = *value;
            let value = rewrite_box(value, templates, wanted, seen);
            let ghost s1 = seen@;
            let ghost q1 = wanted@;
            let ghost t0 = then_body@;
            let then_body = rewrite_nodes(then_body, templates, wanted, seen);
            let ghost s2 = seen@;
            let ghost q2 = wanted@;
            let ghost e0 = else_body;
            let else_body = rewrite_nodes_opt(else_body, templates, wanted, seen);
            proof {
                lemma_registered_trans(s0, q0, s1, q1, s2, q2, insts(c0, tpl_view(templates@)), nodes_insts(t0, tpl_view(templates@)));
                lemma_registered_trans(s0, q0, s2, q2, seen@, wanted@,
                    insts(c0, tpl_view(templates@)) + nodes_insts(t0, tpl_view(templates@)), nodes_opt_insts(e0, tpl_view(templates@)));
            }
            AstNode::IfLet { pattern, value, then_body, else_body, span }
        },
        AstNode::While { condition, body, span } => {
            let ghost c0 = *condition;
            let condition = rewrite_box(condition, templates, wanted, seen);
            let ghost s1 = seen@;
            let ghost q1 = wanted@;
            let ghost b0 = body@;
            let body = rewrite_nodes(body, templates, wanted, seen);
            proof { lemma_registered_trans(s0, q0, s1, q1, seen@, wanted@, insts(c0, tpl_view(templates@)), nodes_insts(b0, tpl_view(templates@))); }
            AstNode::While { condition, body, span }
        },
        AstNode::Match { scrutinee, arms, span } => {
            let ghost c0 = *scrutinee;
            let scrutinee = rewrite_box(scrutinee, templates, wanted, seen);
            let ghost s1 = seen@;
            let ghost q1 = wanted@;
            let ghost a0 = arms@;
            let arms = rewrite_arms(arms, templates, wanted, seen);
            proof { lemma_registered_trans(s0, q0, s1, q1, seen@, wanted@, insts(c0, tpl_view(templates@)), arms_insts(a0, tpl_view(templates@))); }
            AstNode::Match { scrutinee, arms, span }
        },
        AstNode::Block { body, closing_span } =>
            AstNode::Block { body: rewrite_nodes(body, templates, wanted, seen), closing_span },
        AstNode::Program(body) => AstNode::Program(rewrite_nodes(body, templates, wanted, seen)),
        AstNode::Function {
            name, extension_receiver, type_params, params, return_type, body, name_span, closing_span, is_exported, is_async,
        } => AstNode::Function {
            name,
            extension_receiver,
            type_params,
            params,
            return_type,
            body: rewrite_nodes(body, templates, wanted, seen),
            name_span,
            closing_span,
            is_exported,
            is_async,
        },
        other => {
            proof { lemma_registered_none(seen@, wanted@); }
            other
        },
    }
}

fn rewrite_box(
    b: Box<AstNode>,
    templates: &Vec<(String, &AstNode)>,
    wanted: &mut VecDeque<(String, Vec<String>)>,
    seen: &mut Vec<String>,
) -> (r: Box<AstNode>)
    ensures
        rw_ok(*b, *r, tpl_view(templates@)),
        registered(old(seen)@, old(wanted)@, final(seen)@, final(wanted)@, insts(*b, tpl_view(templates@))),
    decreases b, 1nat,
{
    Box::new(rewrite_expr(*b, templates, wanted, seen))
}

fn rewrite_box_opt(
    b: Option<Box<AstNode>>,
    templates: &Vec<(String, &AstNode)>,
    wanted: &mut VecDeque<(String, Vec<String>)>,
    seen: &mut Vec<String>,
) -> (r: Option<Box<AstNode>>)
    ensures
        box_opt_ok(b, r, tpl_view(templates@)),
        registered(old(seen)@, old(wanted)@, final(seen)@, final(wanted)@, box_opt_insts(b, tpl_view(templates@))),
    decreases b, 2nat,
{
    match b {
        Some(x) => Some(rewrite_box(x, templates, wanted, seen)),
        None => {
            proof { lemma_registered_none(seen@, wanted@); }
            None
        },
    }
}

fn rewrite_nodes(
    v: Vec<AstNode>,
    templates: &Vec<(String, &AstNode)>,
    wanted: &mut VecDeque<(String, Vec<String>)>,
    seen: &mut Vec<String>,
) -> (r: Vec<AstNode>)
    ensures
        nodes_ok(v@, r@, tpl_view(templates@)),
        registered(old(seen)@, old(wanted)@, final(seen)@, final(wanted)@, nodes_insts(v@, tpl_view(templates@))),
    decreases v, 1nat,
{
    let ghost orig = v;
    let ghost s0 = seen@;
    let ghost q0 = wanted@;
    assert(orig@.len() == orig.len());
    let mut rest = v;
    let mut out: Vec<AstNode> = Vec::new();
    let mut k: usize = 0;
    proof { lemma_registered_none(seen@, wanted@); }
    assert(orig@.take(0) =~= Seq::<AstNode>::empty());
    while rest.len() > 0
        invariant
            k + rest@.len() == orig@.len(),
            rest@ == orig@.skip(k as int),
            orig == v,
            orig@.len() <= usize::MAX,
            nodes_ok(orig@.take(k as int), out@, tpl_view(templates@)),
            registered(s0, q0, seen@, wanted@, nodes_insts(orig@.take(k as int), tpl_view(templates@))),
        decreases rest@.len(),
    {
        let x = rest.remove(0);
        proof {
            assert(x == orig@[k as int]);
            assert(decreases_to!(orig => orig@[k as int]));
        }
        let ghost s1 = seen@;
        let ghost q1 = wanted@;
        let y = rewrite_expr(x, templates, wanted, seen);
        proof {
            lemma_registered_trans(s0, q0, s1, q1, seen@, wanted@, nodes_insts(orig@.take(k as int), tpl_view(templates@)), insts(x, tpl_view(templates@)));
            assert(orig@.take(k + 1).drop_last() =~= orig@.take(k as int));
            assert(orig@.take(k + 1).last() == x);
        }
        let ghost out0 = out@;
        out.push(y);
        assert(out@.drop_last() =~= out0);
        assert(rest@ =~= orig@.skip(k + 1));
        k += 1;
    }
    assert(orig@.take(k as int) =~= orig@);
    out
}

fn rewrite_nodes_opt(
    v: Option<Vec<AstNode>>,
    templates: &Vec<(String, &AstNode)>,
    wanted: &mut VecDeque<(String, Vec<String>)>,
    seen: &mut Vec<String>,
) -> (r: Option<Vec<AstNode>>)
    ensures
        nodes_opt_ok(v, r, tpl_view(templates@)),
        registered(old(seen)@, old(wanted)@, final(seen)@, final(wanted)@, nodes_opt_insts(v, tpl_view(templates@))),
    decreases v, 2nat,
{
    match v {
        Some(x) => Some(rewrite_nodes(x, templates, wanted, seen)),
        None => {
            proof { lemma_registered_none(seen@, wanted@); }
            None
        },
    }
}

fn rewrite_args(
    v: Vec<CallArg>,
    templates: &Vec<(String, &AstNode)>,
    wanted: &mut VecDeque<(String, Vec<String>)>,
    seen: &mut Vec<String>,
) -> (r: Vec<CallArg>)
    ensures
        args_ok(v@, r@, tpl_view(templates@)),
        registered(old(seen)@, old(wanted)@, final(seen)@, final(wanted)@, args_insts(v@, tpl_view(templates@))),
    decreases v, 1nat,
{
    let ghost orig = v;
    let ghost s0 = seen@;
    let ghost q0 = wanted@;
    assert(orig@.len() == orig.len());
    let mut rest = v;
    let mut out: Vec<CallArg> = Vec::new();
    let mut k: usize = 0;
    proof { lemma_registered_none(seen@, wanted@); }
    assert(orig@.take(0) =~= Seq::<CallArg>::empty());
    while rest.len() > 0
        invariant
            k + rest@.len() == orig@.len(),
            rest@ == orig@.skip(k as int),
            orig == v,
            orig@.len() <= usize::MAX,
            args_ok(orig@.take(k as int), out@, tpl_view(templates@)),
            registered(s0, q0, seen@, wanted@, args_insts(orig@.take(k as int), tpl_view(templates@))),
        decreases rest@.len(),
    {
        let x = rest.remove(0);
        proof {
            assert(x == orig@[k as int]);
            assert(decreases_to!(orig => orig@[k as int]));
            assert(orig@.take(k + 1).drop_last() =~= orig@.take(k as int));
            assert(orig@.take(k + 1).last() == x);
        }
        let ghost s1 = seen@;
        let ghost q1 = wanted@;
        let ghost x0 = x;
        let y = match x {
            CallArg::Positional(e) => CallArg::Positional(rewrite_expr(e, templates, wanted, seen)),
            CallArg::Named { name, name_span, value } =>
                CallArg::Named { name, name_span, value: rewrite_expr(value, templates, wanted, seen) },
        };
        proof {
            let xi = match x0 {
                CallArg::Positional(e) => insts(e, tpl_view(templates@)),
                CallArg::Named { value, .. } => insts(value, tpl_view(templates@)),
            };
            lemma_registered_trans(s0, q0, s1, q1, seen@, wanted@, args_insts(orig@.take(k as int), tpl_view(templates@)), xi);
        }
        let ghost out0 = out@;
        out.push(y);
        assert(out@.drop_last() =~= out0);
        assert(rest@ =~= orig@.skip(k + 1));
        k += 1;
    }
    assert(orig@.take(k as int) =~= orig@);
    out
}

fn rewrite_fields(
    v: Vec<(String, AstNode)>,
    templates: &Vec<(String, &AstNode)>,
    wanted: &mut VecDeque<(String, Vec<String>)>,
    seen: &mut Vec<String>,
) -> (r: Vec<(String, AstNode)>)
    ensures
        fields_ok(v@, r@, tpl_view(templates@)),
        registered(old(seen)@, old(wanted)@, final(seen)@, final(wanted)@, fields_insts(v@, tpl_view(templates@))),
    decreases v, 1nat,
{
    let ghost orig = v;
    let ghost s0 = seen@;
    let ghost q0 = wanted@;
    assert(orig@.len() == orig.len());
    let mut rest = v;
    let mut out: Vec<(String, AstNode)> = Vec::new();
    let mut k: usize = 0;
    proof { lemma_registered_none(seen@, wanted@); }
    assert(orig@.take(0) =~= Seq::<(String, AstNode)>::empty());
    while rest.len() > 0
        invariant
            k + rest@.len() == orig@.len(),
            rest@ == orig@.skip(k as int),
            orig == v,
            orig@.len() <= usize::MAX,
            fields_ok(orig@.take(k as int), out@, tpl_view(templates@)),
            registered(s0, q0, seen@, wanted@, fields_insts(orig@.take(k as int), tpl_view(templates@))),
        decreases rest@.len(),
    {
        let (name, value) = rest.remove(0);
        proof {
            assert(value == orig@[k as int].1);
            assert(name == orig@[k as int].0);
            assert(decreases_to!(orig => orig@[k as int]));
            assert(orig@.take(k + 1).drop_last() =~= orig@.take(k as int));
            assert(orig@.take(k + 1).last() == orig@[k as int]);
        }
        let ghost s1 = seen@;
        let ghost q1 = wanted@;
        let ghost v0 = value;
        let y = rewrite_expr(value, templates, wanted, seen);
        proof {
            lemma_registered_trans(s0, q0, s1, q1, seen@, wanted@, fields_insts(orig@.take(k as int), tpl_view(templates@)), insts(v0, tpl_view(templates@)));
        }
        let ghost out0 = out@;
        out.push((name, y));
        assert(out@.drop_last() =~= out0);
        assert(rest@ =~= orig@.skip(k + 1));
        k += 1;
    }
    assert(orig@.take(k as int) =~= orig@);
    out
}

fn rewrite_arms(
    v: Vec<MatchArm>,
    templates: &Vec<(String, &AstNode)>,
    wanted: &mut VecDeque<(String, Vec<String>)>,
    seen: &mut Vec<String>,
) -> (r: Vec<MatchArm>)
    ensures
        arms_ok(v@, r@, tpl_view(templates@)),
        registered(old(seen)@, old(wanted)@, final(seen)@, final(wanted)@, arms_insts(v@, tpl_view(templates@))),
    decreases v, 1nat,
{
    let ghost orig = v;
    let ghost s0 = seen@;
    let ghost q0 = wanted@;
    assert(orig@.len() == orig.len());
    let mut rest = v;
    let mut out: Vec<MatchArm> = Vec::new();
    let mut k: usize = 0;
    proof { lemma_registered_none(seen@, wanted@); }
    assert(orig@.take(0) =~= Seq::<MatchArm>::empty());
    while rest.len() > 0
        invariant
            k + rest@.len() == orig@.len(),
            rest@ == orig@.skip(k as int),
            orig == v,
            orig@.len() <= usize::MAX,
            arms_ok(orig@.take(k as int), out@, tpl_view(templates@)),
            registered(s0, q0, seen@, wanted@, arms_insts(orig@.take(k as int), tpl_view(templates@))),
        decreases rest@.len(),
    {
        let MatchArm { patterns, guard, body, span } = rest.remove(0);
        proof {
            assert(guard == orig@[k as int].guard);
            assert(body == orig@[k as int].body);
            assert(decreases_to!(orig => orig@[k as int]));
            assert(orig@.take(k + 1).drop_last() =~= orig@.take(k as int));
            assert(orig@.take(k + 1).last() == orig@[k as int]);
        }
        let ghost s1 = seen@;
        let ghost q1 = wanted@;
        let ghost g0 = guard;
        let ghost b0 = *body;
        let guard = rewrite_box_opt(guard, templates, wanted, seen);
        let ghost s2 = seen@;
        let ghost q2 = wanted@;
        let body = rewrite_box(body, templates, wanted, seen);
        proof {
            let pre = arms_insts(orig@.take(k as int), tpl_view(templates@));
            lemma_registered_trans(s0, q0, s1, q1, s2, q2, pre, box_opt_insts(g0, tpl_view(templates@)));
            lemma_registered_trans(s0, q0, s2, q2, seen@, wanted@, pre + box_opt_insts(g0, tpl_view(templates@)), insts(b0, tpl_view(templates@)));
        }
        let ghost out0 = out@;
        out.push(MatchArm { patterns, guard, body, span });
        assert(out@.drop_last() =~= out0);
        assert(rest@ =~= orig@.skip(k + 1));
        k += 1;
    }
    assert(orig@.take(k as int) =~= orig@);
    out
}

/// `f` is a copy of the function `t` named `name`, without type parameters: the other
/// parts are clones of `t`'s.
pub open spec fn instance_of(t: AstNode, f: AstNode, name: Seq<char>) -> bool {
    &&& t matches AstNode::Function {
        extension_receiver: er, params: ps, return_type: rt, body: b, name_span: ns, closing_span: cs,
        is_exported: ie, is_async: ia, ..
    }
    &&& f matches AstNode::Function {
        name: n, extension_receiver, type_params, params, return_type, body, name_span, closing_span, is_exported, is_async,
    }
    &&& n@ == name
    &&& type_params@.len() == 0
    &&& vstd::pervasive::cloned(er, extension_receiver)
    &&& vstd::pervasive::cloned(ps, params)
    &&& vstd::pervasive::cloned(rt, return_type)
    &&& vstd::pervasive::cloned(b, body)
    &&& name_span == ns && closing_span == cs && is_exported == ie && is_async == ia
}

/// A copy of the generic function `template` under the instance name `concrete_name`,
/// without type parameters.
fn instantiate_function_template(template: &AstNode, concrete_name: String) -> (r: Option<AstNode>)
    ensures
        r is Some <==> template is Function,
        r matches Some(f) ==> instance_of(*template, f, concrete_name@),
{
    match template {
        AstNode::Function {
            extension_receiver, params, return_type, body, name_span, closing_span, is_exported, is_async, ..
        } => Some(AstNode::Function {
            name: concrete_name,
            extension_receiver: extension_receiver.clone(),
            type_params: Vec::new(),
            params: params.clone(),
            return_type: return_type.clone(),
            body: body.clone(),
            name_span: *name_span,
            closing_span: *closing_span,
            is_exported: *is_exported,
            is_async: *is_async,
        }),
        _ => None,
    }
}

/// `name<A, B>` when all of `args` are concrete.
fn applied_name(name: &String, args: &Vec<TypeExpr>) -> (r: Option<String>)
    ensures
        match type_texts(args@) {
            Some(ps) => r matches Some(s) && s@ == name@ + "<"@ + join(ps, ", "@) + ">"@,
            None => r is None,
        },
{
    let parts = match format_type_exprs(args) {
        Some(p) => p,
        None => {
            return None;
        },
    };
    proof {
        assert(parts@.map_values(|s: String| s@) =~= type_texts(args@)->Some_0);
    }
    let mut out: Vec<char> = Vec::new();
    push_str(&mut out, name.as_str());
    push_str(&mut out, "<");
    push_joined(&mut out, &parts, ", ");
    push_str(&mut out, ">");
    Some(chars_to_string(out.as_slice()))
}

/// Adds each of `xs`, in order, to the set `out` (kept in first-insertion order) unless
/// it is there.
pub open spec fn add_all(out: Seq<Seq<char>>, xs: Seq<Seq<char>>) -> Seq<Seq<char>>
    decreases xs.len(),
{
    if xs.len() == 0 {
        out
    } else {
        let o = add_all(out, xs.drop_last());
        if o.contains(xs.last()) { o } else { o.push(xs.last()) }
    }
}

proof fn lemma_add_all_concat(out: Seq<Seq<char>>, xs: Seq<Seq<char>>, ys: Seq<Seq<char>>)
    ensures
        add_all(out, xs + ys) == add_all(add_all(out, xs), ys),
    decreases ys.len(),
{
    if ys.len() == 0 {
        assert(xs + ys =~= xs);
    } else {
        assert((xs + ys).drop_last() =~= xs + ys.drop_last());
        assert((xs + ys).last() == ys.last());
        lemma_add_all_concat(out, xs, ys.drop_last());
    }
}

/// `name<A, B>` for the argument texts `ps`.
pub open spec fn applied_text(name: Seq<char>, ps: Seq<Seq<char>>) -> Seq<char> {
    name + "<"@ + join(ps, ", "@) + ">"@
}

/// The generic type `name` applied to `args`, when `args` is not empty and all are concrete.
pub open spec fn applied_use(name: Seq<char>, args: Seq<TypeExpr>) -> Seq<Seq<char>> {
    if args.len() > 0 {
        match type_texts(args) {
            Some(ps) => seq![applied_text(name, ps)],
            None => Seq::empty(),
        }
    } else {
        Seq::empty()
    }
}

/// The concrete generic types `t` uses (`Option<Int>`), innermost first.
pub open spec fn type_uses(t: TypeExpr) -> Seq<Seq<char>>
    decreases t, 0nat,
{
    match t {
        TypeExpr::EnumApp { name, args } => types_uses(args@) + match type_texts(args@) {
            Some(ps) => seq![applied_text(name@, ps)],
            None => Seq::empty(),
        },
        TypeExpr::Tuple(parts) => types_uses(parts@),
        TypeExpr::Array(inner) => type_uses(*inner),
        _ => Seq::empty(),
    }
}

pub open spec fn types_uses(ts: Seq<TypeExpr>) -> Seq<Seq<char>>
    decreases ts, 1nat,
{
    if ts.len() == 0 {
        Seq::empty()
    } else {
        types_uses(ts.drop_last()) + type_uses(ts.last())
    }
}

/// The concrete generic types `n` uses in struct literals, enum constructors, type
/// values and explicit call type arguments, in the order they are met. Function and
/// type declarations, lambdas and some other expressions are not searched.
pub open spec fn node_uses(n: AstNode) -> Seq<Seq<char>>
    decreases n, 0nat,
{
    match n {
        AstNode::StructLiteral { name, type_args, fields, update, .. } =>
            applied_use(name@, type_args@) + fields_uses(fields@) + box_opt_uses(update),
        AstNode::TypeValue { ty_name, .. } =>
            if exists|j: int| 0 <= j && occurs_at(ty_name@, "<"@, j) { seq![ty_name@] } else { Seq::empty() },
        AstNode::Call { type_args, arguments, .. } => types_uses(type_args@) + args_uses(arguments@),
        AstNode::EnumVariantCtor { enum_name, type_args, payloads, .. } =>
            applied_use(enum_name@, type_args@) + nodes_uses(payloads@),
        AstNode::MethodCall { receiver, arguments, .. } => node_uses(*receiver) + args_uses(arguments@),
        AstNode::TypeMethodCall { arguments, .. } => args_uses(arguments@),
        AstNode::Let { initializer, .. } => box_opt_uses(initializer),
        AstNode::Assign { value, .. } => node_uses(*value),
        AstNode::AssignExpr { lhs, rhs, .. } => node_uses(*lhs) + node_uses(*rhs),
        AstNode::CompoundAssign { lhs, rhs, .. } => node_uses(*lhs) + node_uses(*rhs),
        AstNode::If { condition, then_body, else_body, .. } =>
            node_uses(*condition) + nodes_uses(then_body@) + nodes_opt_uses(else_body),
        AstNode::IfLet { value, then_body, else_body, .. } =>
            node_uses(*value) + nodes_uses(then_body@) + nodes_opt_uses(else_body),
        AstNode::While { condition, body, .. } => node_uses(*condition) + nodes_uses(body@),
        AstNode::Match { scrutinee, arms, .. } => node_uses(*scrutinee) + arms_uses(arms@),
        AstNode::Block { body, .. } => nodes_uses(body@),
        AstNode::Program(body) => nodes_uses(body@),
        AstNode::ArrayLiteral { elements, .. } => nodes_uses(elements@),
        AstNode::TupleLiteral { elements, .. } => nodes_uses(elements@),
        AstNode::UnaryOp { operand, .. } => node_uses(*operand),
        AstNode::BinaryOp { left, right, .. } => node_uses(*left) + node_uses(*right),
        AstNode::FieldAccess { base, .. } => node_uses(*base),
        AstNode::TupleField { base, .. } => node_uses(*base),
        AstNode::Return { value: Some(base), .. } => node_uses(*base),
        AstNode::ArrayIndex { base, index, .. } => node_uses(*base) + node_uses(*index),
        _ => Seq::empty(),
    }
}

pub open spec fn box_opt_uses(a: Option<Box<AstNode>>) -> Seq<Seq<char>>
    decreases a, 1nat,
{
    match a {
        Some(x) => node_uses(*x),
        None => Seq::empty(),
    }
}

pub open spec fn nodes_uses(v: Seq<AstNode>) -> Seq<Seq<char>>
    decreases v, 1nat,
{
    if v.len() == 0 {
        Seq::empty()
    } else {
        nodes_uses(v.drop_last()) + node_uses(v.last())
    }
}

pub open spec fn nodes_opt_uses(a: Option<Vec<AstNode>>) -> Seq<Seq<char>>
    decreases a, 2nat,
{
    match a {
        Some(x) => nodes_uses(x@),
        None => Seq::empty(),
    }
}

pub open spec fn args_uses(v: Seq<CallArg>) -> Seq<Seq<char>>
    decreases v, 1nat,
{
    if v.len() == 0 {
        Seq::empty()
    } else {
        args_uses(v.drop_last()) + match v.last() {
            CallArg::Positional(x) => node_uses(x),
            CallArg::Named { value, .. } => node_uses(value),
        }
    }
}

pub open spec fn fields_uses(v: Seq<(String, AstNode)>) -> Seq<Seq<char>>
    decreases v, 1nat,
{
    if v.len() == 0 {
        Seq::empty()
    } else {
        fields_uses(v.drop_last()) + node_uses(v.last().1)
    }
}

pub open spec fn arms_uses(v: Seq<MatchArm>) -> Seq<Seq<char>>
    decreases v, 1nat,
{
    if v.len() == 0 {
        Seq::empty()
    } else {
        arms_uses(v.drop_last()) + box_opt_uses(v.last().guard) + node_uses(*v.last().body)
    }
}

/// `out` (a set of type names) went from `o0` to `o1` by adding `xs`.
pub open spec fn added(o0: Seq<String>, o1: Seq<String>, xs: Seq<Seq<char>>) -> bool {
    names_of(o1) == add_all(names_of(o0), xs)
}

proof fn lemma_added_trans(o0: Seq<String>, o1: Seq<String>, o2: Seq<String>, xs: Seq<Seq<char>>, ys: Seq<Seq<char>>)
    requires
        added(o0, o1, xs),
        added(o1, o2, ys),
    ensures
        added(o0, o2, xs + ys),
{
    lemma_add_all_concat(names_of(o0), xs, ys);
}

/// Adds `s` to the set `out` unless it is there.
fn add_use(out: &mut Vec<String>, s: String)
    ensures
        added(old(out)@, final(out)@, seq![s@]),
{
    let ghost o0 = out@;
    let there = contains_string(out, &s);
    assert(seq![s@].drop_last() =~= Seq::<Seq<char>>::empty());
    assert(seq![s@].last() == s@);
    assert(add_all(names_of(o0), Seq::<Seq<char>>::empty()) == names_of(o0));
    if there {
        proof {
            let i = choose|i: int| 0 <= i < o0.len() && (#[trigger] o0[i])@ == s@;
            assert(names_of(o0)[i] == s@);
            assert(names_of(o0).contains(s@));
        }
    } else {
        out.push(s);
        proof {
            if names_of(o0).contains(s@) {
                let i = choose|i: int| 0 <= i < names_of(o0).len() && names_of(o0)[i] == s@;
                assert(o0[i]@ == s@);
            }
            assert(names_of(out@) =~= names_of(o0).push(s@));
        }
    }
}

/// Records the concrete generic types `te` uses (`Option<Int>`), innermost first.
fn collect_concrete_type_uses_from_type_expr(te: &TypeExpr, out: &mut Vec<String>)
    ensures
        added(old(out)@, final(out)@, type_uses(*te)),
    decreases te, 0nat,
{
    let ghost o0 = out@;
    match te {
        TypeExpr::EnumApp { name, args } => {
            collect_types(args, out);
            let ghost o1 = out@;
            match applied_name(name, args) {
                Some(s) => {
                    add_use(out, s);
                    proof { lemma_added_trans(o0, o1, out@, types_uses(args@), seq![applied_text(name@, type_texts(args@)->Some_0)]); }
                },
                None => {
                    assert(types_uses(args@) + Seq::<Seq<char>>::empty() =~= types_uses(args@));
                },
            }
        },
        TypeExpr::Tuple(parts) => collect_types(parts, out),
        TypeExpr::Array(inner) => collect_concrete_type_uses_from_type_expr(&**inner, out),
        _ => {},
    }
}

fn collect_types(v: &Vec<TypeExpr>, out: &mut Vec<String>)
    ensures
        added(old(out)@, final(out)@, types_uses(v@)),
    decreases v, 1nat,
{
    let ghost o0 = out@;
    let mut i: usize = 0;
    assert(v@.take(0) =~= Seq::<TypeExpr>::empty());
    while i < v.len()
        invariant
            i <= v@.len(),
            added(o0, out@, types_uses(v@.take(i as int))),
        decreases v@.len() - i,
    {
        let ghost o1 = out@;
        collect_concrete_type_uses_from_type_expr(&v[i], out);
        proof {
            assert(v@.take(i + 1).drop_last() =~= v@.take(i as int));
            lemma_added_trans(o0, o1, out@, types_uses(v@.take(i as int)), type_uses(v@[i as int]));
        }
        i += 1;
    }
    assert(v@.take(v@.len() as int) =~= v@);
}

/// Records the concrete generic types that `node` uses (see `node_uses`).
fn collect_concrete_type_uses_from_node(node: &AstNode, out: &mut Vec<String>)
    ensures
        added(old(out)@, final(out)@, node_uses(*node)),
    decreases node, 0nat,
{
    let ghost o0 = out@;
    match node {
        AstNode::StructLiteral { name, type_args, fields, update, .. } => {
            if type_args.len() > 0 {
                match applied_name(name, type_args) {
                    Some(s) => add_use(out, s),
                    None => {},
                }
            }
            assert(added(o0, out@, applied_use(name@, type_args@)));
            let ghost o1 = out@;
            collect_fields(fields, out);
            let ghost o2 = out@;
            match update {
                Some(u) => collect_concrete_type_uses_from_node(&**u, out),
                None => {},
            }
            proof {
                lemma_added_trans(o0, o1, o2, applied_use(name@, type_args@), fields_uses(fields@));
                lemma_added_trans(o0, o2, out@, applied_use(name@, type_args@) + fields_uses(fields@), box_opt_uses(*update));
            }
        },
        AstNode::TypeValue { ty_name, .. } => {
            match split_once(ty_name, "<") {
                Some(parts) => {
                    proof {
                        let j = parts.0@.len() as int;
                        assert(0 <= j && occurs_at(ty_name@, "<"@, j));
                    }
                    add_use(out, ty_name.clone());
                },
                None => {
                    assert(!exists|j: int| 0 <= j && occurs_at(ty_name@, "<"@, j));
                },
            }
        },
        AstNode::Call { type_args, arguments, .. } => {
            collect_types(type_args, out);
            let ghost o1 = out@;
            collect_args(arguments, out);
            proof { lemma_added_trans(o0, o1, out@, types_uses(type_args@), args_uses(arguments@)); }
        },
        AstNode::EnumVariantCtor { enum_name, type_args, payloads, .. } => {
            if type_args.len() > 0 {
                match applied_name(enum_name, type_args) {
                    Some(s) => add_use(out, s),
                    None => {},
                }
            }
            assert(added(o0, out@, applied_use(enum_name@, type_args@)));
            let ghost o1 = out@;
            collect_nodes(payloads, out);
            proof { lemma_added_trans(o0, o1, out@, applied_use(enum_name@, type_args@), nodes_uses(payloads@)); }
        },
        AstNode::MethodCall { receiver, arguments, .. } => {
            collect_concrete_type_uses_from_node(&**receiver, out);
            let ghost o1 = out@;
            collect_args(arguments, out);
            proof { lemma_added_trans(o0, o1, out@, node_uses(**receiver), args_uses(arguments@)); }
        },
        AstNode::TypeMethodCall { arguments, .. } => collect_args(arguments, out),
        AstNode::Let { initializer, .. } => {
            match initializer {
                Some(init) => {
                    collect_concrete_type_uses_from_node(&**init, out);
                    assert(box_opt_uses(*initializer) == node_uses(**init));
                },
                None => {
                    assert(box_opt_uses(*initializer) == Seq::<Seq<char>>::empty());
                },
            }
            assert(node_uses(*node) == box_opt_uses(*initializer));
        },
        AstNode::Assign { value, .. } => collect_concrete_type_uses_from_node(&**value, out),
        AstNode::AssignExpr { lhs, rhs, .. } => {
            collect_concrete_type_uses_from_node(&**lhs, out);
            let ghost o1 = out@;
            collect_concrete_type_uses_from_node(&**rhs, out);
            proof { lemma_added_trans(o0, o1, out@, node_uses(**lhs), node_uses(**rhs)); }
        },
        AstNode::CompoundAssign { lhs, rhs, .. } => {
            collect_concrete_type_uses_from_node(&**lhs, out);
            let ghost o1 = out@;
            collect_concrete_type_uses_from_node(&**rhs, out);
            proof { lemma_added_trans(o0, o1, out@, node_uses(**lhs), node_uses(**rhs)); }
        },
        AstNode::If { condition, then_body, else_body, .. } => {
            collect_concrete_type_uses_from_node(&**condition, out);
            let ghost o1 = out@;
            collect_nodes(then_body, out);
            let ghost o2 = out@;
            match else_body {
                Some(es) => collect_nodes(es, out),
                None => {},
            }
            proof {
                lemma_added_trans(o0, o1, o2, node_uses(**condition), nodes_uses(then_body@));
                lemma_added_trans(o0, o2, out@, node_uses(**condition) + nodes_uses(then_body@), nodes_opt_uses(*else_body));
            }
        },
        AstNode::IfLet { value, then_body, else_body, .. } => {
            collect_concrete_type_uses_from_node(&**value, out);
            let ghost o1 = out@;
            collect_nodes(then_body, out);
            let ghost o2 = out@;
            match else_body {
                Some(es) => collect_nodes(es, out),
                None => {},
            }
            proof {
                lemma_added_trans(o0, o1, o2, node_uses(**value), nodes_uses(then_body@));
                lemma_added_trans(o0, o2, out@, node_uses(**value) + nodes_uses(then_body@), nodes_opt_uses(*else_body));
            }
        },
        AstNode::While { condition, body, .. } => {
            collect_concrete_type_uses_from_node(&**condition, out);
            let ghost o1 = out@;
            collect_nodes(body, out);
            proof { lemma_added_trans(o0, o1, out@, node_uses(**condition), nodes_uses(body@)); }
        },
        AstNode::Match { scrutinee, arms, .. } => {
            collect_concrete_type_uses_from_node(&**scrutinee, out);
            let ghost o1 = out@;
            collect_arms(arms, out);
            proof { lemma_added_trans(o0, o1, out@, node_uses(**scrutinee), arms_uses(arms@)); }
        },
        AstNode::Block { body, .. } => collect_nodes(body, out),
        AstNode::Program(body) => collect_nodes(body, out),
        AstNode::ArrayLiteral { elements, .. } => collect_nodes(elements, out),
        AstNode::TupleLiteral { elements, .. } => collect_nodes(elements, out),
        AstNode::UnaryOp { operand, .. } => collect_concrete_type_uses_from_node(&**operand, out),
        AstNode::BinaryOp { left, right, .. } => {
            collect_concrete_type_uses_from_node(&**left, out);
            let ghost o1 = out@;
            collect_concrete_type_uses_from_node(&**right, out);
            proof { lemma_added_trans(o0, o1, out@, node_uses(**left), node_uses(**right)); }
        },
        AstNode::FieldAccess { base, .. } => collect_concrete_type_uses_from_node(&**base, out),
        AstNode::TupleField { base, .. } => collect_concrete_type_uses_from_node(&**base, out),
        AstNode::Return { value: Some(base), .. } => collect_concrete_type_uses_from_node(&**base, out),
        AstNode::ArrayIndex { base, index, .. } => {
            collect_concrete_type_uses_from_node(&**base, out);
            let ghost o1 = out@;
            collect_concrete_type_uses_from_node(&**index, out);
            proof { lemma_added_trans(o0, o1, out@, node_uses(**base), node_uses(**index)); }
        },
        _ => {},
    }
}

fn collect_nodes(v: &Vec<AstNode>, out: &mut Vec<String>)
    ensures
        added(old(out)@, final(out)@, nodes_uses(v@)),
    decreases v, 1nat,
{
    let ghost o0 = out@;
    let mut i: usize = 0;
    assert(v@.take(0) =~= Seq::<AstNode>::empty());
    while i < v.len()
        invariant
            i <= v@.len(),
            added(o0, out@, nodes_uses(v@.take(i as int))),
        decreases v@.len() - i,
    {
        let ghost o1 = out@;
        collect_concrete_type_uses_from_node(&v[i], out);
        proof {
            assert(v@.take(i + 1).drop_last() =~= v@.take(i as int));
            lemma_added_trans(o0, o1, out@, nodes_uses(v@.take(i as int)), node_uses(v@[i as int]));
        }
        i += 1;
    }
    assert(v@.take(v@.len() as int) =~= v@);
}

fn collect_args(v: &Vec<CallArg>, out: &mut Vec<String>)
    ensures
        added(old(out)@, final(out)@, args_uses(v@)),
    decreases v, 1nat,
{
    let ghost o0 = out@;
    let mut i: usize = 0;
    assert(v@.take(0) =~= Seq::<CallArg>::empty());
    while i < v.len()
        invariant
            i <= v@.len(),
            added(o0, out@, args_uses(v@.take(i as int))),
        decreases v@.len() - i,
    {
        let ghost o1 = out@;
        match &v[i] {
            CallArg::Positional(e) => collect_concrete_type_uses_from_node(e, out),
            CallArg::Named { value, .. } => collect_concrete_type_uses_from_node(value, out),
        }
        proof {
            assert(v@.take(i + 1).drop_last() =~= v@.take(i as int));
            let xi = match v@[i as int] {
                CallArg::Positional(x) => node_uses(x),
                CallArg::Named { value, .. } => node_uses(value),
            };
            lemma_added_trans(o0, o1, out@, args_uses(v@.take(i as int)), xi);
        }
        i += 1;
    }
    assert(v@.take(v@.len() as int) =~= v@);
}

fn collect_fields(v: &Vec<(String, AstNode)>, out: &mut Vec<String>)
    ensures
        added(old(out)@, final(out)@, fields_uses(v@)),
    decreases v, 1nat,
{
    let ghost o0 = out@;
    let mut i: usize = 0;
    assert(v@.take(0) =~= Seq::<(String, AstNode)>::empty());
    while i < v.len()
        invariant
            i <= v@.len(),
            added(o0, out@, fields_uses(v@.take(i as int))),
        decreases v@.len() - i,
    {
        let ghost o1 = out@;
        collect_concrete_type_uses_from_node(&v[i].1, out);
        proof {
            assert(v@.take(i + 1).drop_last() =~= v@.take(i as int));
            lemma_added_trans(o0, o1, out@, fields_uses(v@.take(i as int)), node_uses(v@[i as int].1));
        }
        i += 1;
    }
    assert(v@.take(v@.len() as int) =~= v@);
}

fn collect_arms(v: &Vec<MatchArm>, out: &mut Vec<String>)
    ensures
        added(old(out)@, final(out)@, arms_uses(v@)),
    decreases v, 1nat,
{
    let ghost o0 = out@;
    let mut i: usize = 0;
    assert(v@.take(0) =~= Seq::<MatchArm>::empty());
    while i < v.len()
        invariant
            i <= v@.len(),
            added(o0, out@, arms_uses(v@.take(i as int))),
        decreases v@.len() - i,
    {
        let ghost o1 = out@;
        match &v[i].guard {
            Some(g) => collect_concrete_type_uses_from_node(&**g, out),
            None => {},
        }
        let ghost o2 = out@;
        collect_concrete_type_uses_from_node(&*v[i].body, out);
        proof {
            assert(v@.take(i + 1).drop_last() =~= v@.take(i as int));
            let pre = arms_uses(v@.take(i as int));
            lemma_added_trans(o0, o1, o2, pre, box_opt_uses(v@[i as int].guard));
            lemma_added_trans(o0, o2, out@, pre + box_opt_uses(v@[i as int].guard), node_uses(*v@[i as int].body));
        }
        i += 1;
    }
    assert(v@.take(v@.len() as int) =~= v@);
}

/// The instance requests recorded while rewriting the items `cs`, in order.
pub open spec fn requests(cs: Seq<AstNode>, tpl: Seq<(String, AstNode)>) -> Seq<Instance> {
    register(Seq::empty(), nodes_insts(cs, tpl)).1
}

/// The function template an instance request is made from: the template under the name
/// before the first `$mono$` of the instance name.
pub open spec fn request_template(x: Instance, tpl: Seq<(String, AstNode)>) -> Option<AstNode> {
    match before_first(x.0, "$mono$"@) {
        Some(base) => match entry_value(tpl, base) {
            Some(t) => if t is Function { Some(t) } else { None },
            None => None,
        },
        None => None,
    }
}

/// `outs` are the instances made for the requests `q`, in order (see `instance_of`);
/// a request without a template makes none.
pub open spec fn instances_ok(q: Seq<Instance>, tpl: Seq<(String, AstNode)>, outs: Seq<AstNode>) -> bool
    decreases q.len(),
{
    if q.len() == 0 {
        outs.len() == 0
    } else {
        match request_template(q.last(), tpl) {
            Some(t) => {
                &&& outs.len() > 0
                &&& instance_of(t, outs.last(), q.last().0)
                &&& instances_ok(q.drop_last(), tpl, outs.drop_last())
            },
            None => instances_ok(q.drop_last(), tpl, outs),
        }
    }
}

/// The generic structs (not internal ones) among `items`, each under its name.
pub open spec fn struct_templates(items: Seq<AstNode>) -> Seq<(String, AstNode)>
    decreases items.len(),
{
    if items.len() == 0 {
        Seq::empty()
    } else {
        let t = struct_templates(items.drop_last());
        match items.last() {
            AstNode::StructDef { name, type_params, is_internal, .. } =>
                if type_params@.len() > 0 && !is_internal { t.push((name, items.last())) } else { t },
            _ => t,
        }
    }
}

/// The generic enums among `items`, each under its name.
pub open spec fn enum_templates(items: Seq<AstNode>) -> Seq<(String, AstNode)>
    decreases items.len(),
{
    if items.len() == 0 {
        Seq::empty()
    } else {
        let t = enum_templates(items.drop_last());
        match items.last() {
            AstNode::EnumDef { name, type_params, .. } =>
                if type_params@.len() > 0 { t.push((name, items.last())) } else { t },
            _ => t,
        }
    }
}

/// The names of the struct and enum declarations among `items`, in order.
pub open spec fn declared_types(items: Seq<AstNode>) -> Seq<Seq<char>>
    decreases items.len(),
{
    if items.len() == 0 {
        Seq::empty()
    } else {
        let t = declared_types(items.drop_last());
        match items.last() {
            AstNode::StructDef { name, .. } => t.push(name@),
            AstNode::EnumDef { name, .. } => t.push(name@),
            _ => t,
        }
    }
}

/// The template the concrete type `u` is declared from: none when a type of that name is
/// declared already; else the generic struct, or failing that the generic enum, named by
/// the text before the first `<` of `u`.
pub open spec fn type_template(
    u: Seq<char>,
    existing: Seq<Seq<char>>,
    stpl: Seq<(String, AstNode)>,
    etpl: Seq<(String, AstNode)>,
) -> Option<AstNode> {
    if existing.contains(u) {
        None
    } else {
        match before_first(u, "<"@) {
            Some(base) => match entry_value(stpl, base) {
                Some(t) if t is StructDef => Some(t),
                _ => match entry_value(etpl, base) {
                    Some(t) if t is EnumDef => Some(t),
                    _ => None,
                },
            },
            None => None,
        }
    }
}

/// `d` declares the concrete type `u` from the generic struct or enum `t`: named `u`,
/// without type parameters, its fields or variants cloned and its flags and spans copied.
pub open spec fn declared_from(t: AstNode, d: AstNode, u: Seq<char>) -> bool {
    match t {
        AstNode::StructDef { fields, is_unit, is_internal, name_span, span, is_exported, .. } =>
            d matches AstNode::StructDef {
                name: n, type_params: tp, fields: f, is_unit: iu, is_internal: ii, name_span: ns, span: sp, is_exported: ie,
            } && n@ == u && tp@.len() == 0 && vstd::pervasive::cloned(fields, f) && iu == is_unit && ii == is_internal
                && ns == name_span && sp == span && ie == is_exported,
        AstNode::EnumDef { variants, is_internal, name_span, span, is_exported, .. } =>
            d matches AstNode::EnumDef {
                name: n, type_params: tp, variants: v, is_internal: ii, name_span: ns, span: sp, is_exported: ie,
            } && n@ == u && tp@.len() == 0 && vstd::pervasive::cloned(variants, v) && ii == is_internal
                && ns == name_span && sp == span && ie == is_exported,
        _ => false,
    }
}

/// `outs` are the declarations made for the concrete types `used`, in order (see
/// `type_template` and `declared_from`).
pub open spec fn declarations_ok(
    used: Seq<Seq<char>>,
    existing: Seq<Seq<char>>,
    stpl: Seq<(String, AstNode)>,
    etpl: Seq<(String, AstNode)>,
    outs: Seq<AstNode>,
) -> bool
    decreases used.len(),
{
    if used.len() == 0 {
        outs.len() == 0
    } else {
        match type_template(used.last(), existing, stpl, etpl) {
            Some(t) => {
                &&& outs.len() > 0
                &&& declared_from(t, outs.last(), used.last())
                &&& declarations_ok(used.drop_last(), existing, stpl, etpl, outs.drop_last())
            },
            None => declarations_ok(used.drop_last(), existing, stpl, etpl, outs),
        }
    }
}

/// Each of the first `n` items of `out` is the rewrite of `cs[i]`, a clone of `items[i]`.
pub open spec fn items_rewritten(items: Seq<AstNode>, out: Seq<AstNode>, cs: Seq<AstNode>, tpl: Seq<(String, AstNode)>, n: int) -> bool {
    &&& forall|i: int| 0 <= i < n ==> #[trigger] vstd::pervasive::cloned(items[i], cs[i])
    &&& forall|i: int| 0 <= i < n ==> rw_ok(cs[i], #[trigger] out[i], tpl)
}

/// The pass's output `out` for the program `items`: the items rewritten (each a clone `cs[i]`
/// of the item, rewritten as `rw_ok` says), then the `k` instances of the functions they
/// asked for, each made from the rewritten generic function, then declarations of the
/// concrete generic types used so far that are not declared yet.
pub open spec fn monomorphized(items: Seq<AstNode>, out: Seq<AstNode>, cs: Seq<AstNode>, k: int) -> bool {
    let n = items.len() as int;
    let tpl = fn_templates(items);
    let mid = out.take(n + k);
    &&& cs.len() == n
    &&& 0 <= k && n + k <= out.len()
    &&& items_rewritten(items, out, cs, tpl, n)
    &&& instances_ok(requests(cs, tpl), fn_templates(out.take(n)), out.subrange(n, n + k))
    &&& declarations_ok(add_all(Seq::empty(), nodes_uses(mid)), declared_types(mid),
        struct_templates(items), enum_templates(items), out.skip(n + k))
}

proof fn lemma_instances_decl(q: Seq<Instance>, tpl: Seq<(String, AstNode)>, outs: Seq<AstNode>)
    requires
        instances_ok(q, tpl, outs),
    ensures
        forall|j: int| 0 <= j < outs.len() ==> monomorphic_decl(#[trigger] outs[j]),
    decreases q.len(),
{
    if q.len() > 0 {
        match request_template(q.last(), tpl) {
            Some(t) => {
                lemma_instances_decl(q.drop_last(), tpl, outs.drop_last());
                assert forall|j: int| 0 <= j < outs.len() implies monomorphic_decl(#[trigger] outs[j]) by {
                    if j < outs.len() - 1 {
                        assert(outs[j] == outs.drop_last()[j]);
                    }
                }
            },
            None => lemma_instances_decl(q.drop_last(), tpl, outs),
        }
    }
}

proof fn lemma_declarations_decl(
    used: Seq<Seq<char>>,
    existing: Seq<Seq<char>>,
    stpl: Seq<(String, AstNode)>,
    etpl: Seq<(String, AstNode)>,
    outs: Seq<AstNode>,
)
    requires
        declarations_ok(used, existing, stpl, etpl, outs),
    ensures
        forall|j: int| 0 <= j < outs.len() ==> monomorphic_decl(#[trigger] outs[j]),
    decreases used.len(),
{
    if used.len() > 0 {
        match type_template(used.last(), existing, stpl, etpl) {
            Some(t) => {
                lemma_declarations_decl(used.drop_last(), existing, stpl, etpl, outs.drop_last());
                assert forall|j: int| 0 <= j < outs.len() implies monomorphic_decl(#[trigger] outs[j]) by {
                    if j < outs.len() - 1 {
                        assert(outs[j] == outs.drop_last()[j]);
                    }
                }
            },
            None => lemma_declarations_decl(used.drop_last(), existing, stpl, etpl, outs),
        }
    }
}

proof fn lemma_nodes_insts_contains(cs: Seq<AstNode>, tpl: Seq<(String, AstNode)>, i: int, x: Instance)
    requires
        0 <= i < cs.len(),
        insts(cs[i], tpl).contains(x),
    ensures
        nodes_insts(cs, tpl).contains(x),
    decreases cs.len(),
{
    let init = nodes_insts(cs.drop_last(), tpl);
    let j = choose|j: int| 0 <= j < insts(cs[i], tpl).len() && insts(cs[i], tpl)[j] == x;
    if i < cs.len() - 1 {
        assert(cs.drop_last()[i] == cs[i]);
        lemma_nodes_insts_contains(cs.drop_last(), tpl, i, x);
        let m = choose|m: int| 0 <= m < init.len() && init[m] == x;
        assert((init + insts(cs.last(), tpl))[m] == x);
    } else {
        assert((init + insts(cs.last(), tpl))[init.len() + j] == x);
    }
}

/// The names seen after recording `xs` are those seen before and those queued.
proof fn lemma_register_names(seen: Seq<Seq<char>>, xs: Seq<Instance>)
    ensures
        register(seen, xs).0 == seen + register(seen, xs).1.map_values(|y: Instance| y.0),
        forall|m: int| 0 <= m < xs.len() ==> register(seen, xs).0.contains(#[trigger] xs[m].0),
    decreases xs.len(),
{
    if xs.len() == 0 {
        assert(seen + Seq::<Instance>::empty().map_values(|y: Instance| y.0) =~= seen);
    } else {
        lemma_register_names(seen, xs.drop_last());
        let (s, q) = register(seen, xs.drop_last());
        let x = xs.last();
        if !s.contains(x.0) {
            assert(q.push(x).map_values(|y: Instance| y.0) =~= q.map_values(|y: Instance| y.0).push(x.0));
            assert(s.push(x.0)[s.len() as int] == x.0);
        }
        let s1 = register(seen, xs).0;
        assert forall|m: int| 0 <= m < xs.len() implies s1.contains(#[trigger] xs[m].0) by {
            if m < xs.len() - 1 {
                assert(xs.drop_last()[m] == xs[m]);
                assert(s.contains(xs[m].0));
                let w = choose|w: int| 0 <= w < s.len() && s[w] == xs[m].0;
                if !s.contains(x.0) {
                    assert(s.push(x.0)[w] == xs[m].0);
                }
            } else if !s.contains(x.0) {
                assert(s.push(x.0)[s.len() as int] == x.0);
            }
        }
    }
}

proof fn lemma_instances_found(q: Seq<Instance>, tpl: Seq<(String, AstNode)>, outs: Seq<AstNode>, m: int)
    requires
        instances_ok(q, tpl, outs),
        0 <= m < q.len(),
        request_template(q[m], tpl) is Some,
    ensures
        exists|j: int| 0 <= j < outs.len() && (#[trigger] outs[j] matches AstNode::Function { name, .. } && name@ == q[m].0),
    decreases q.len(),
{
    if m == q.len() - 1 {
        let t = request_template(q.last(), tpl)->0;
        assert(instance_of(t, outs.last(), q.last().0));
        assert(outs[outs.len() - 1] == outs.last());
    } else {
        assert(q.drop_last()[m] == q[m]);
        match request_template(q.last(), tpl) {
            Some(t) => {
                lemma_instances_found(q.drop_last(), tpl, outs.drop_last(), m);
                let j = choose|j: int| 0 <= j < outs.drop_last().len()
                    && (#[trigger] outs.drop_last()[j] matches AstNode::Function { name, .. } && name@ == q[m].0);
                assert(outs[j] == outs.drop_last()[j]);
            },
            None => lemma_instances_found(q.drop_last(), tpl, outs, m),
        }
    }
}

/// Every call the pass rewrites calls a function the pass adds: for each instance a
/// rewritten item asks for whose name has a generic function of the rewritten program
/// before its first `$mono$` (the case unless the generic function's own name runs into
/// `$mono$`), one of the added functions has that name.
pub proof fn lemma_rewritten_calls_have_instances(items: Seq<AstNode>, out: Seq<AstNode>, cs: Seq<AstNode>, k: int, i: int, x: Instance)
    requires
        monomorphized(items, out, cs, k),
        0 <= i < items.len(),
        insts(cs[i], fn_templates(items)).contains(x),
        request_template(x, fn_templates(out.take(items.len() as int))) is Some,
    ensures
        exists|j: int| items.len() <= j < items.len() + k
            && (#[trigger] out[j] matches AstNode::Function { name, .. } && name@ == x.0),
{
    let tpl = fn_templates(items);
    let n = items.len() as int;
    let xs = nodes_insts(cs, tpl);
    let q = requests(cs, tpl);
    lemma_nodes_insts_contains(cs, tpl, i, x);
    let mx = choose|mx: int| 0 <= mx < xs.len() && xs[mx] == x;
    lemma_register_names(Seq::empty(), xs);
    let names = register(Seq::<Seq<char>>::empty(), xs).0;
    assert(names.contains(xs[mx].0));
    let w = choose|w: int| 0 <= w < names.len() && names[w] == x.0;
    assert(Seq::<Seq<char>>::empty() + q.map_values(|y: Instance| y.0) =~= q.map_values(|y: Instance| y.0));
    assert(q[w].0 == x.0);
    let rtpl = fn_templates(out.take(n));
    assert(request_template(q[w], rtpl) == request_template(x, rtpl));
    let outs = out.subrange(n, n + k);
    lemma_instances_found(q, rtpl, outs, w);
    let j = choose|j: int| 0 <= j < outs.len() && (#[trigger] outs[j] matches AstNode::Function { name, .. } && name@ == q[w].0);
    assert(out[n + j] == outs[j]);
}

/// The instance a call asks for finds its template again through the text before the first
/// `$mono$` of its name, unless `$mono$` already occurs there before the end of the callee's
/// name.
pub proof fn lemma_instance_template(callee: Seq<char>, type_args: Seq<TypeExpr>, tpl: Seq<(String, AstNode)>)
    requires
        call_instance(callee, type_args, tpl) is Some,
        forall|j: int| 0 <= j < callee.len()
            ==> !occurs_at((call_instance(callee, type_args, tpl)->0).0, "$mono$"@, j),
    ensures
        request_template(call_instance(callee, type_args, tpl)->0, tpl) is Some,
{
    let x = call_instance(callee, type_args, tpl)->0;
    let ts = type_texts(type_args)->0;
    let rest = join(ts.map_values(|a: Seq<char>| a.map_values(|c: char| mangle_char(c))), "__"@);
    assert(x.0 == callee + "$mono$"@ + rest);
    assert(x.0.subrange(callee.len() as int, (callee.len() + "$mono$"@.len()) as int) =~= "$mono$"@);
    lemma_first_occurrence(x.0, "$mono$"@, 0, Some(callee.len() as int));
    assert(x.0.subrange(0, callee.len() as int) =~= callee);
}

proof fn lemma_add_all_contains(out: Seq<Seq<char>>, xs: Seq<Seq<char>>, u: Seq<char>)
    requires
        xs.contains(u) || out.contains(u),
    ensures
        add_all(out, xs).contains(u),
    decreases xs.len(),
{
    if xs.len() > 0 {
        if xs.last() == u {
            let o = add_all(out, xs.drop_last());
            if !o.contains(u) {
                assert(o.push(u)[o.len() as int] == u);
            }
        } else {
            let i = choose|i: int| 0 <= i < xs.len() && xs[i] == u || out.contains(u);
            if !out.contains(u) {
                assert(xs.drop_last()[i] == u);
            }
            lemma_add_all_contains(out, xs.drop_last(), u);
            let o = add_all(out, xs.drop_last());
            if !o.contains(xs.last()) {
                let m = choose|m: int| 0 <= m < o.len() && o[m] == u;
                assert(o.push(xs.last())[m] == u);
            }
        }
    }
}

proof fn lemma_before_first_angle(u: Seq<char>, name: Seq<char>)
    requires
        u.len() > name.len(),
        u.take(name.len() as int) == name,
        u[name.len() as int] == '<',
        forall|c: int| 0 <= c < name.len() ==> name[c] != '<',
    ensures
        before_first(u, "<"@) == Some(name),
{
    reveal_strlit("<");
    let n = name.len() as int;
    assert forall|j: int| 0 <= j && j < n implies !occurs_at(u, "<"@, j) by {
        if occurs_at(u, "<"@, j) {
            assert(u.subrange(j, j + 1)[0] == u[j]);
            assert(u[j] == u.take(n)[j]);
        }
    }
    assert(u.subrange(n, n + 1) =~= "<"@);
    lemma_first_occurrence(u, "<"@, 0, Some(n));
    assert(u.subrange(0, n) =~= u.take(n));
}

proof fn lemma_enum_templates_entries(items: Seq<AstNode>)
    ensures
        forall|i: int| 0 <= i < enum_templates(items).len() ==> exists|e: int| 0 <= e < items.len()
            && items[e] == #[trigger] enum_templates(items)[i].1
            && (items[e] matches AstNode::EnumDef { name, type_params, .. }
                && name == enum_templates(items)[i].0 && type_params@.len() > 0),
        forall|e: int| 0 <= e < items.len() && (#[trigger] items[e] matches AstNode::EnumDef { type_params, .. }
            && type_params@.len() > 0) ==> exists|i: int| 0 <= i < enum_templates(items).len()
            && enum_templates(items)[i].0@ == items[e]->EnumDef_name@,
    decreases items.len(),
{
    if items.len() > 0 {
        let pre = items.drop_last();
        lemma_enum_templates_entries(pre);
        let t = enum_templates(pre);
        let tt = enum_templates(items);
        assert forall|i: int| 0 <= i < tt.len() implies exists|e: int| 0 <= e < items.len()
            && items[e] == #[trigger] tt[i].1
            && (items[e] matches AstNode::EnumDef { name, type_params, .. } && name == tt[i].0 && type_params@.len() > 0) by {
            if i < t.len() {
                assert(tt[i] == t[i]);
                let e = choose|e: int| 0 <= e < pre.len() && pre[e] == #[trigger] t[i].1
                    && (pre[e] matches AstNode::EnumDef { name, type_params, .. } && name == t[i].0 && type_params@.len() > 0);
                assert(items[e] == pre[e]);
            } else {
                assert(items[items.len() - 1] == items.last());
            }
        }
        assert forall|e: int| 0 <= e < items.len() && (#[trigger] items[e] matches AstNode::EnumDef { type_params, .. }
            && type_params@.len() > 0) implies exists|i: int| 0 <= i < tt.len()
            && tt[i].0@ == items[e]->EnumDef_name@ by {
            if e < pre.len() {
                assert(pre[e] == items[e]);
                let i = choose|i: int| 0 <= i < t.len() && t[i].0@ == pre[e]->EnumDef_name@;
                assert(tt[i] == t[i]);
            } else {
                assert(items.last() == items[e]);
                assert(tt[t.len() as int].0@ == items[e]->EnumDef_name@);
            }
        }
    }
}

proof fn lemma_struct_templates_entries(items: Seq<AstNode>)
    ensures
        forall|i: int| 0 <= i < struct_templates(items).len() ==> exists|s: int| 0 <= s < items.len()
            && items[s] == #[trigger] struct_templates(items)[i].1
            && (items[s] matches AstNode::StructDef { name, type_params, is_internal, .. }
                && name == struct_templates(items)[i].0 && type_params@.len() > 0 && !is_internal),
        forall|s: int| 0 <= s < items.len() && (#[trigger] items[s] matches AstNode::StructDef { type_params, is_internal, .. }
            && type_params@.len() > 0 && !is_internal) ==> exists|i: int| 0 <= i < struct_templates(items).len()
            && struct_templates(items)[i].0@ == items[s]->StructDef_name@,
    decreases items.len(),
{
    if items.len() > 0 {
        let pre = items.drop_last();
        lemma_struct_templates_entries(pre);
        let t = struct_templates(pre);
        let tt = struct_templates(items);
        assert forall|i: int| 0 <= i < tt.len() implies exists|s: int| 0 <= s < items.len()
            && items[s] == #[trigger] tt[i].1
            && (items[s] matches AstNode::StructDef { name, type_params, is_internal, .. }
                && name == tt[i].0 && type_params@.len() > 0 && !is_internal) by {
            if i < t.len() {
                assert(tt[i] == t[i]);
                let s = choose|s: int| 0 <= s < pre.len() && pre[s] == #[trigger] t[i].1
                    && (pre[s] matches AstNode::StructDef { name, type_params, is_internal, .. }
                    && name == t[i].0 && type_params@.len() > 0 && !is_internal);
                assert(items[s] == pre[s]);
            } else {
                assert(items[items.len() - 1] == items.last());
            }
        }
        assert forall|s: int| 0 <= s < items.len() && (#[trigger] items[s] matches AstNode::StructDef { type_params, is_internal, .. }
            && type_params@.len() > 0 && !is_internal) implies exists|i: int| 0 <= i < tt.len()
            && tt[i].0@ == items[s]->StructDef_name@ by {
            if s < pre.len() {
                assert(pre[s] == items[s]);
                let i = choose|i: int| 0 <= i < t.len() && t[i].0@ == pre[s]->StructDef_name@;
                assert(tt[i] == t[i]);
            } else {
                assert(items.last() == items[s]);
                assert(tt[t.len() as int].0@ == items[s]->StructDef_name@);
            }
        }
    }
}

proof fn lemma_declarations_cover(used: Seq<Seq<char>>, existing: Seq<Seq<char>>, stpl: Seq<(String, AstNode)>,
    etpl: Seq<(String, AstNode)>, outs: Seq<AstNode>, u: Seq<char>, t: AstNode)
    requires
        declarations_ok(used, existing, stpl, etpl, outs),
        used.contains(u),
        type_template(u, existing, stpl, etpl) == Some(t),
    ensures
        exists|j: int| 0 <= j < outs.len() && declared_from(t, #[trigger] outs[j], u),
    decreases used.len(),
{
    if used.last() == u {
        assert(declared_from(t, outs[outs.len() - 1], u));
    } else {
        let i = choose|i: int| 0 <= i < used.len() && used[i] == u;
        assert(used.drop_last()[i] == u);
        match type_template(used.last(), existing, stpl, etpl) {
            Some(_) => {
                lemma_declarations_cover(used.drop_last(), existing, stpl, etpl, outs.drop_last(), u, t);
                let j = choose|j: int| 0 <= j < outs.drop_last().len() && declared_from(t, #[trigger] outs.drop_last()[j], u);
                assert(outs[j] == outs.drop_last()[j]);
            },
            None => lemma_declarations_cover(used.drop_last(), existing, stpl, etpl, outs, u, t),
        }
    }
}

proof fn lemma_fn_templates_entries(items: Seq<AstNode>)
    ensures
        forall|i: int| 0 <= i < fn_templates(items).len() ==> exists|f: int| 0 <= f < items.len()
            && items[f] == #[trigger] fn_templates(items)[i].1
            && (items[f] matches AstNode::Function { name, type_params, .. }
                && name == fn_templates(items)[i].0 && type_params@.len() > 0),
        forall|f: int| 0 <= f < items.len() && (#[trigger] items[f] matches AstNode::Function { type_params, .. }
            && type_params@.len() > 0) ==> exists|i: int| 0 <= i < fn_templates(items).len()
            && fn_templates(items)[i].0@ == items[f]->Function_name@,
    decreases items.len(),
{
    if items.len() > 0 {
        let pre = items.drop_last();
        lemma_fn_templates_entries(pre);
        let t = fn_templates(pre);
        let tt = fn_templates(items);
        assert forall|i: int| 0 <= i < tt.len() implies exists|f: int| 0 <= f < items.len()
            && items[f] == #[trigger] tt[i].1
            && (items[f] matches AstNode::Function { name, type_params, .. } && name == tt[i].0 && type_params@.len() > 0) by {
            if i < t.len() {
                assert(tt[i] == t[i]);
                let f = choose|f: int| 0 <= f < pre.len() && pre[f] == #[trigger] t[i].1
                    && (pre[f] matches AstNode::Function { name, type_params, .. } && name == t[i].0 && type_params@.len() > 0);
                assert(items[f] == pre[f]);
            } else {
                assert(items[items.len() - 1] == items.last());
            }
        }
        assert forall|f: int| 0 <= f < items.len() && (#[trigger] items[f] matches AstNode::Function { type_params, .. }
            && type_params@.len() > 0) implies exists|i: int| 0 <= i < tt.len()
            && tt[i].0@ == items[f]->Function_name@ by {
            if f < pre.len() {
                assert(pre[f] == items[f]);
                let i = choose|i: int| 0 <= i < t.len() && t[i].0@ == pre[f]->Function_name@;
                assert(tt[i] == t[i]);
            } else {
                assert(items.last() == items[f]);
                assert(tt[t.len() as int].0@ == items[f]->Function_name@);
            }
        }
    }
}

/// Every generic function `F` of the program is a template: a call of `F` with concrete
/// type arguments asks for the instance of `F` at those arguments, named by `F` and their
/// texts (see `mangled_name`).
pub proof fn lemma_generic_function_calls_instantiated(items: Seq<AstNode>, f: int, type_args: Seq<TypeExpr>)
    requires
        0 <= f < items.len(),
        items[f] matches AstNode::Function { type_params, .. } && type_params@.len() > 0,
        type_texts(type_args) matches Some(ts) && ts.len() > 0,
    ensures
        call_instance(items[f]->Function_name@, type_args, fn_templates(items))
            == Some((mangled_name(items[f]->Function_name@, type_texts(type_args)->0), type_texts(type_args)->0)),
{
    let name = items[f]->Function_name@;
    let tpl = fn_templates(items);
    lemma_fn_templates_entries(items);
    lemma_entry_index(tpl, name);
    let i0 = choose|i: int| 0 <= i < tpl.len() && tpl[i].0@ == items[f]->Function_name@;
    assert(tpl[i0].0@ == name);
    let i = entry_index(tpl, name)->0;
    let g = choose|g: int| 0 <= g < items.len() && items[g] == #[trigger] tpl[i].1
        && (items[g] matches AstNode::Function { name, type_params, .. } && name == tpl[i].0 && type_params@.len() > 0);
    assert(entry_value(tpl, name) == Some(items[g]));
}

/// Every generic enum `E` of the program is a template: for each concrete use `E<..>` in
/// the output program (outside the added declarations) that no type declaration there
/// already names, and where no generic struct is also called `E`, the output holds an
/// enum named by that use, without type parameters, whose variants are a clone of those
/// of a generic enum `E` of the program.
pub proof fn lemma_generic_enum_uses_declared(items: Seq<AstNode>, out: Seq<AstNode>, cs: Seq<AstNode>, k: int,
    e: int, u: Seq<char>)
    requires
        monomorphized(items, out, cs, k),
        0 <= e < items.len(),
        items[e] matches AstNode::EnumDef { type_params, .. } && type_params@.len() > 0,
        ({
            let name = items[e]->EnumDef_name@;
            &&& u.len() > name.len()
            &&& u.take(name.len() as int) == name
            &&& u[name.len() as int] == '<'
            &&& forall|c: int| 0 <= c < name.len() ==> name[c] != '<'
        }),
        nodes_uses(out.take(items.len() + k)).contains(u),
        !declared_types(out.take(items.len() + k)).contains(u),
        forall|s: int| 0 <= s < items.len() ==> !(#[trigger] items[s] matches AstNode::StructDef { name, type_params, is_internal, .. }
            && name@ == items[e]->EnumDef_name@ && type_params@.len() > 0 && !is_internal),
    ensures
        exists|j: int| items.len() + k <= j < out.len() && (#[trigger] out[j] matches AstNode::EnumDef { name, type_params, variants, .. }
            && name@ == u && type_params@.len() == 0
            && exists|e2: int| 0 <= e2 < items.len() && (#[trigger] items[e2] matches AstNode::EnumDef {
                name: n2, type_params: tp2, variants: v2, .. } && n2@ == items[e]->EnumDef_name@ && tp2@.len() > 0
                && vstd::pervasive::cloned(v2, variants))),
{
    let n = items.len() as int;
    let name = items[e]->EnumDef_name@;
    let mid = out.take(n + k);
    let stpl = struct_templates(items);
    let etpl = enum_templates(items);
    let used = add_all(Seq::empty(), nodes_uses(mid));
    let existing = declared_types(mid);
    lemma_before_first_angle(u, name);
    lemma_add_all_contains(Seq::empty(), nodes_uses(mid), u);
    lemma_struct_templates_entries(items);
    lemma_entry_index(stpl, name);
    if entry_index(stpl, name) is Some {
        let i = entry_index(stpl, name)->0;
        let s = choose|s: int| 0 <= s < items.len() && items[s] == #[trigger] stpl[i].1
            && (items[s] matches AstNode::StructDef { name, type_params, is_internal, .. }
                && name == stpl[i].0 && type_params@.len() > 0 && !is_internal);
        assert(false);
    }
    lemma_enum_templates_entries(items);
    lemma_entry_index(etpl, name);
    let i0 = choose|i: int| 0 <= i < etpl.len() && etpl[i].0@ == items[e]->EnumDef_name@;
    assert(etpl[i0].0@ == name);
    let i = entry_index(etpl, name)->0;
    let t = etpl[i].1;
    let e2 = choose|e2: int| 0 <= e2 < items.len() && items[e2] == #[trigger] etpl[i].1
        && (items[e2] matches AstNode::EnumDef { name, type_params, .. } && name == etpl[i].0 && type_params@.len() > 0);
    assert(type_template(u, existing, stpl, etpl) == Some(t));
    let outs = out.skip(n + k);
    lemma_declarations_cover(used, existing, stpl, etpl, outs, u, t);
    let j = choose|j: int| 0 <= j < outs.len() && declared_from(t, #[trigger] outs[j], u);
    assert(out[n + k + j] == outs[j]);
    assert(items[e2] matches AstNode::EnumDef { name: n2, type_params: tp2, variants: v2, .. } && n2@ == name
        && tp2@.len() > 0);
}

/// Every generic struct `S` of the program (not an internal one) is a template: for each
/// concrete use `S<..>` in the output program (outside the added declarations) that no
/// type declaration there already names, the output holds a struct named by that use,
/// without type parameters, whose fields are a clone of those of a generic struct `S` of
/// the program.
pub proof fn lemma_generic_struct_uses_declared(items: Seq<AstNode>, out: Seq<AstNode>, cs: Seq<AstNode>, k: int,
    s: int, u: Seq<char>)
    requires
        monomorphized(items, out, cs, k),
        0 <= s < items.len(),
        items[s] matches AstNode::StructDef { type_params, is_internal, .. } && type_params@.len() > 0 && !is_internal,
        ({
            let name = items[s]->StructDef_name@;
            &&& u.len() > name.len()
            &&& u.take(name.len() as int) == name
            &&& u[name.len() as int] == '<'
            &&& forall|c: int| 0 <= c < name.len() ==> name[c] != '<'
        }),
        nodes_uses(out.take(items.len() + k)).contains(u),
        !declared_types(out.take(items.len() + k)).contains(u),
    ensures
        exists|j: int| items.len() + k <= j < out.len() && (#[trigger] out[j] matches AstNode::StructDef { name, type_params, fields, .. }
            && name@ == u && type_params@.len() == 0
            && exists|s2: int| 0 <= s2 < items.len() && (#[trigger] items[s2] matches AstNode::StructDef {
                name: n2, type_params: tp2, fields: f2, is_internal: i2, .. } && n2@ == items[s]->StructDef_name@
                && tp2@.len() > 0 && !i2 && vstd::pervasive::cloned(f2, fields))),
{
    let n = items.len() as int;
    let name = items[s]->StructDef_name@;
    let mid = out.take(n + k);
    let stpl = struct_templates(items);
    let etpl = enum_templates(items);
    let used = add_all(Seq::empty(), nodes_uses(mid));
    let existing = declared_types(mid);
    lemma_before_first_angle(u, name);
    lemma_add_all_contains(Seq::empty(), nodes_uses(mid), u);
    lemma_struct_templates_entries(items);
    lemma_entry_index(stpl, name);
    let i0 = choose|i: int| 0 <= i < stpl.len() && stpl[i].0@ == items[s]->StructDef_name@;
    assert(stpl[i0].0@ == name);
    let i = entry_index(stpl, name)->0;
    let t = stpl[i].1;
    let s2 = choose|s2: int| 0 <= s2 < items.len() && items[s2] == #[trigger] stpl[i].1
        && (items[s2] matches AstNode::StructDef { name, type_params, is_internal, .. } && name == stpl[i].0
            && type_params@.len() > 0 && !is_internal);
    assert(type_template(u, existing, stpl, etpl) == Some(t));
    let outs = out.skip(n + k);
    lemma_declarations_cover(used, existing, stpl, etpl, outs, u, t);
    let j = choose|j: int| 0 <= j < outs.len() && declared_from(t, #[trigger] outs[j], u);
    assert(out[n + k + j] == outs[j]);
}

/// Instantiates the generic functions called with explicit type arguments and the
/// generic structs and enums used at concrete types (see `monomorphized`): the original
/// items come first (with rewritten call sites), and every item added after them is a
/// function, struct or enum without type parameters.
pub fn monomorphize_program(ast: &AstNode) -> (r: AstNode)
    ensures
        ast matches AstNode::Program(items) ==> (r matches AstNode::Program(out) && {
            &&& out@.len() >= items@.len()
            &&& exists|cs: Seq<AstNode>, k: int| monomorphized(items@, out@, cs, k)
            &&& forall|i: int| items@.len() <= i < out@.len() ==> monomorphic_decl(#[trigger] out@[i])
        }),
        !(ast is Program) ==> vstd::pervasive::cloned(*ast, r),
{
    let items = match ast {
        AstNode::Program(items) => items,
        _ => {
            return ast.clone();
        },
    };
    let mut templates: Vec<(String, &AstNode)> = Vec::new();
    let mut i: usize = 0;
    assert(items@.take(0) =~= Seq::<AstNode>::empty());
    assert(tpl_view(templates@) =~= Seq::<(String, AstNode)>::empty());
    while i < items.len()
        invariant
            i <= items@.len(),
            tpl_view(templates@) == fn_templates(items@.take(i as int)),
        decreases items@.len() - i,
    {
        assert(items@.take(i + 1).drop_last() =~= items@.take(i as int));
        assert(items@.take(i + 1).last() == items@[i as int]);
        let ghost t0 = templates@;
        match &items[i] {
            AstNode::Function { name, type_params, .. } => {
                if type_params.len() > 0 {
                    templates.push((name.clone(), &items[i]));
                    assert(tpl_view(templates@) =~= tpl_view(t0).push((*name, items@[i as int])));
                }
            },
            _ => {},
        }
        i += 1;
    }
    assert(items@.take(items@.len() as int) =~= items@);
    let ghost tpl = fn_templates(items@);
    let mut wanted: VecDeque<(String, Vec<String>)> = VecDeque::new();
    let mut seen: Vec<String> = Vec::new();
    let mut out_items: Vec<AstNode> = Vec::new();
    let ghost mut cs: Seq<AstNode> = Seq::empty();
    let ghost s_empty = seen@;
    let ghost w_empty = wanted@;
    proof { lemma_registered_none(seen@, wanted@); }
    let mut i: usize = 0;
    while i < items.len()
        invariant
            i <= items@.len(),
            out_items@.len() == i,
            cs.len() == i,
            tpl == fn_templates(items@),
            tpl_view(templates@) == tpl,
            s_empty.len() == 0,
            w_empty.len() == 0,
            items_rewritten(items@, out_items@, cs, tpl, i as int),
            registered(s_empty, w_empty, seen@, wanted@, nodes_insts(cs, tpl)),
        decreases items@.len() - i,
    {
        let c = items[i].clone();
        let ghost s1 = seen@;
        let ghost w1 = wanted@;
        let y = rewrite_expr(c, &templates, &mut wanted, &mut seen);
        let ghost o0 = out_items@;
        out_items.push(y);
        proof {
            lemma_registered_trans(s_empty, w_empty, s1, w1, seen@, wanted@, nodes_insts(cs, tpl), insts(c, tpl));
            let cs0 = cs;
            cs = cs.push(c);
            assert(cs.drop_last() =~= cs0);
            assert(vstd::pervasive::cloned(items@[i as int], c));
            assert(cs[i as int] == c);
            assert(out_items@[i as int] == y);
            assert(items_rewritten(items@, out_items@, cs, tpl, i + 1)) by {
                assert forall|k: int| 0 <= k < i + 1 implies #[trigger] vstd::pervasive::cloned(items@[k], cs[k]) by {
                    if k < i {
                        assert(cs[k] == cs0[k]);
                        assert(vstd::pervasive::cloned(items@[k], cs0[k]));
                    }
                }
                assert forall|k: int| 0 <= k < i + 1 implies rw_ok(cs[k], #[trigger] out_items@[k], tpl) by {
                    if k < i {
                        assert(out_items@[k] == o0[k]);
                        assert(cs[k] == cs0[k]);
                        assert(rw_ok(cs0[k], o0[k], tpl));
                    }
                }
            }
        }
        i += 1;
    }
    let n = out_items.len();
    let mut rtemplates: Vec<(String, &AstNode)> = Vec::new();
    let mut i: usize = 0;
    assert(out_items@.take(0) =~= Seq::<AstNode>::empty());
    assert(tpl_view(rtemplates@) =~= Seq::<(String, AstNode)>::empty());
    while i < out_items.len()
        invariant
            i <= out_items@.len(),
            tpl_view(rtemplates@) == fn_templates(out_items@.take(i as int)),
        decreases out_items@.len() - i,
    {
        assert(out_items@.take(i + 1).drop_last() =~= out_items@.take(i as int));
        assert(out_items@.take(i + 1).last() == out_items@[i as int]);
        let ghost t0 = rtemplates@;
        match &out_items[i] {
            AstNode::Function { name, type_params, .. } => {
                if type_params.len() > 0 {
                    rtemplates.push((name.clone(), &out_items[i]));
                    assert(tpl_view(rtemplates@) =~= tpl_view(t0).push((*name, out_items@[i as int])));
                }
            },
            _ => {},
        }
        i += 1;
    }
    assert(out_items@.take(out_items@.len() as int) =~= out_items@);
    let ghost rewritten = out_items@;
    let ghost rtpl = fn_templates(rewritten);
    let ghost q = requests(cs, tpl);
    assert(names_of(s_empty) =~= Seq::<Seq<char>>::empty());
    assert(requests_of(w_empty) =~= Seq::<Instance>::empty());
    assert(requests_of(wanted@) =~= q);
    let ghost mut p: int = 0;
    assert(q.skip(0) =~= q);
    assert(q.take(0) =~= Seq::<Instance>::empty());
    let mut made: Vec<AstNode> = Vec::new();
    while wanted.len() > 0
        invariant
            n == items@.len(),
            cs.len() == n,
            out_items@ == rewritten,
            rewritten.len() == n,
            rtpl == fn_templates(rewritten),
            tpl_view(rtemplates@) == rtpl,
            q == requests(cs, tpl),
            0 <= p <= q.len(),
            requests_of(wanted@) == q.skip(p),
            instances_ok(q.take(p), rtpl, made@),
        decreases wanted@.len(),
    {
        let ghost w0 = wanted@;
        let (mono_name, _concrete_args) = wanted.pop_front().unwrap();
        let ghost x = (mono_name@, names_of(_concrete_args@));
        proof {
            assert(w0.len() > 0);
            assert(requests_of(w0).len() == w0.len());
            assert(q.skip(p).len() > 0);
            assert(requests_of(w0)[0] == x);
            assert(q.skip(p)[0] == q[p]);
            assert(wanted@ =~= w0.subrange(1, w0.len() as int));
            assert(requests_of(wanted@) =~= requests_of(w0).subrange(1, w0.len() as int));
            assert(requests_of(wanted@) =~= q.skip(p + 1));
            assert(q.take(p + 1).drop_last() =~= q.take(p));
            assert(q.take(p + 1).last() == x);
            p = p + 1;
        }
        let ghost made0 = made@;
        let base_name = match split_once(&mono_name, "$mono$") {
            Some((b, _)) => b,
            None => {
                continue;
            },
        };
        let template = match find_template(&rtemplates, &base_name) {
            Some(t) => t,
            None => {
                continue;
            },
        };
        match instantiate_function_template(template, mono_name.clone()) {
            Some(inst) => {
                made.push(inst);
                proof {
                    assert(made@.drop_last() =~= made0);
                }
            },
            None => {},
        }
    }
    let ghost made_v = made@;
    out_items.append(&mut made);
    proof {
        assert(out_items@.subrange(n as int, out_items@.len() as int) =~= made_v);
        assert(out_items@.take(n as int) =~= rewritten);
        assert(items_rewritten(items@, out_items@, cs, tpl, n as int)) by {
            assert forall|k: int| 0 <= k < n implies rw_ok(cs[k], #[trigger] out_items@[k], tpl) by {
                assert(out_items@[k] == rewritten[k]);
            }
        }
    }
    let ghost mid = out_items@;
    proof {
        assert(requests_of(wanted@).len() == wanted@.len());
        assert(wanted@.len() == 0);
        assert(q.skip(p).len() == 0);
        assert(q.take(p) =~= q);
        assert(mid.take(mid.len() as int) =~= mid);
        lemma_instances_decl(q, rtpl, mid.subrange(n as int, mid.len() as int));
    }
    let mut used: Vec<String> = Vec::new();
    let mut i: usize = 0;
    assert(mid.take(0) =~= Seq::<AstNode>::empty());
    assert(names_of(used@) =~= add_all(Seq::empty(), nodes_uses(mid.take(0))));
    while i < out_items.len()
        invariant
            out_items@ == mid,
            i <= mid.len(),
            names_of(used@) == add_all(Seq::empty(), nodes_uses(mid.take(i as int))),
        decreases mid.len() - i,
    {
        let ghost u0 = used@;
        collect_concrete_type_uses_from_node(&out_items[i], &mut used);
        proof {
            assert(mid.take(i + 1).drop_last() =~= mid.take(i as int));
            assert(mid.take(i + 1).last() == mid[i as int]);
            lemma_add_all_concat(Seq::empty(), nodes_uses(mid.take(i as int)), node_uses(mid[i as int]));
        }
        i += 1;
    }
    let ghost used_v = names_of(used@);
    let mut struct_tpl: Vec<(String, &AstNode)> = Vec::new();
    let mut enum_tpl: Vec<(String, &AstNode)> = Vec::new();
    let mut i: usize = 0;
    assert(tpl_view(struct_tpl@) =~= Seq::<(String, AstNode)>::empty());
    assert(tpl_view(enum_tpl@) =~= Seq::<(String, AstNode)>::empty());
    while i < items.len()
        invariant
            i <= items@.len(),
            tpl_view(struct_tpl@) == struct_templates(items@.take(i as int)),
            tpl_view(enum_tpl@) == enum_templates(items@.take(i as int)),
        decreases items@.len() - i,
    {
        assert(items@.take(i + 1).drop_last() =~= items@.take(i as int));
        assert(items@.take(i + 1).last() == items@[i as int]);
        let ghost st0 = struct_tpl@;
        let ghost et0 = enum_tpl@;
        match &items[i] {
            AstNode::StructDef { name, type_params, is_internal, .. } => {
                if type_params.len() > 0 && !*is_internal {
                    struct_tpl.push((name.clone(), &items[i]));
                    assert(tpl_view(struct_tpl@) =~= tpl_view(st0).push((*name, items@[i as int])));
                }
            },
            AstNode::EnumDef { name, type_params, .. } => {
                if type_params.len() > 0 {
                    enum_tpl.push((name.clone(), &items[i]));
                    assert(tpl_view(enum_tpl@) =~= tpl_view(et0).push((*name, items@[i as int])));
                }
            },
            _ => {},
        }
        i += 1;
    }
    let ghost stpl = struct_templates(items@);
    let ghost etpl = enum_templates(items@);
    let mut existing: Vec<String> = Vec::new();
    let mut i: usize = 0;
    assert(names_of(existing@) =~= declared_types(mid.take(0)));
    while i < out_items.len()
        invariant
            out_items@ == mid,
            i <= mid.len(),
            names_of(existing@) == declared_types(mid.take(i as int)),
        decreases mid.len() - i,
    {
        assert(mid.take(i + 1).drop_last() =~= mid.take(i as int));
        assert(mid.take(i + 1).last() == mid[i as int]);
        let ghost e0 = existing@;
        match &out_items[i] {
            AstNode::StructDef { name, .. } => {
                existing.push(name.clone());
                assert(names_of(existing@) =~= names_of(e0).push(name@));
            },
            AstNode::EnumDef { name, .. } => {
                existing.push(name.clone());
                assert(names_of(existing@) =~= names_of(e0).push(name@));
            },
            _ => {},
        }
        i += 1;
    }
    let ghost existing_v = names_of(existing@);
    let mut u: usize = 0;
    assert(used_v.take(0) =~= Seq::<Seq<char>>::empty());
    assert(out_items@.skip(mid.len() as int) =~= Seq::<AstNode>::empty());
    while u < used.len()
        invariant
            u <= used@.len(),
            used_v == names_of(used@),
            existing_v == names_of(existing@),
            tpl_view(struct_tpl@) == stpl,
            tpl_view(enum_tpl@) == etpl,
            out_items@.len() >= mid.len(),
            out_items@.take(mid.len() as int) == mid,
            declarations_ok(used_v.take(u as int), existing_v, stpl, etpl, out_items@.skip(mid.len() as int)),
            forall|j: int| mid.len() <= j < out_items@.len() ==> monomorphic_decl(#[trigger] out_items@[j]),
        decreases used@.len() - u,
    {
        let ghost o0 = out_items@;
        let concrete = &used[u];
        proof {
            assert(used_v.take(u + 1).drop_last() =~= used_v.take(u as int));
            assert(used_v.take(u + 1).last() == concrete@);
        }
        u += 1;
        let there = contains_string(&existing, concrete);
        proof {
            if there {
                let j = choose|j: int| 0 <= j < existing@.len() && (#[trigger] existing@[j])@ == concrete@;
                assert(existing_v[j] == concrete@);
            } else if existing_v.contains(concrete@) {
                let j = choose|j: int| 0 <= j < existing_v.len() && existing_v[j] == concrete@;
                assert(existing@[j]@ == concrete@);
            }
        }
        if there {
            continue;
        }
        let base = match split_once(concrete, "<") {
            Some((b, _)) => b,
            None => {
                continue;
            },
        };
        match find_template(&struct_tpl, &base) {
            Some(AstNode::StructDef { fields, is_unit, is_internal, name_span, span, is_exported, .. }) => {
                let d = AstNode::StructDef {
                    name: concrete.clone(),
                    type_params: Vec::new(),
                    fields: fields.clone(),
                    is_unit: *is_unit,
                    is_internal: *is_internal,
                    name_span: *name_span,
                    span: *span,
                    is_exported: *is_exported,
                };
                out_items.push(d);
                proof {
                    let outs = out_items@.skip(mid.len() as int);
                    assert(outs.drop_last() =~= o0.skip(mid.len() as int));
                    assert(outs.last() == d);
                    assert(out_items@.take(mid.len() as int) =~= o0.take(mid.len() as int));
                }
                continue;
            },
            _ => {},
        }
        match find_template(&enum_tpl, &base) {
            Some(AstNode::EnumDef { variants, is_internal, name_span, span, is_exported, .. }) => {
                let d = AstNode::EnumDef {
                    name: concrete.clone(),
                    type_params: Vec::new(),
                    variants: variants.clone(),
                    is_internal: *is_internal,
                    name_span: *name_span,
                    span: *span,
                    is_exported: *is_exported,
                };
                out_items.push(d);
                proof {
                    let outs = out_items@.skip(mid.len() as int);
                    assert(outs.drop_last() =~= o0.skip(mid.len() as int));
                    assert(outs.last() == d);
                    assert(out_items@.take(mid.len() as int) =~= o0.take(mid.len() as int));
                }
            },
            _ => {},
        }
    }
    proof {
        assert(used_v.take(used_v.len() as int) =~= used_v);
        let k = mid.len() - n;
        let out = out_items@;
        assert(out.take(n + k) == mid);
        assert(out.subrange(n as int, n + k) =~= mid.subrange(n as int, mid.len() as int));
        assert(out.take(n as int) =~= mid.take(n as int));
        assert(mid.take(n as int) =~= rewritten);
        assert(items_rewritten(items@, out, cs, tpl, n as int)) by {
            assert forall|i: int| 0 <= i < n implies rw_ok(cs[i], #[trigger] out[i], tpl) by {
                assert(out[i] == mid[i]);
                assert(rw_ok(cs[i], mid[i], tpl));
            }
        }
        assert(out.len() >= items@.len());
        assert(monomorphized(items@, out, cs, k));
        assert forall|j: int| items@.len() <= j < out.len() implies monomorphic_decl(#[trigger] out[j]) by {
            if j < mid.len() {
                assert(out[j] == mid[j]);
                assert(mid[j] == mid.subrange(n as int, mid.len() as int)[j - n]);
            }
        }
    }
    assert(exists|cs2: Seq<AstNode>, k2: int| monomorphized(items@, out_items@, cs2, k2));
    assert(forall|j: int| items@.len() <= j < out_items@.len() ==> monomorphic_decl(#[trigger] out_items@[j]));
    assert(out_items@.len() >= items@.len());
    AstNode::Program(out_items)
}

} // verus!
