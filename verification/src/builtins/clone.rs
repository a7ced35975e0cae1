use vstd::prelude::*;
use crate::ast::{FunctionTypeParam, Param, TypeExpr};
use crate::error::Span;
use crate::text::{lit, str_is};
use super::{BuiltinError, BuiltinImpl};

verus! {

/// `internal func clone<T>(value: T): T;`, a deep copy.
pub struct CloneBuiltin;

/// `a` and `b` are the same type expression.
pub open spec fn same_type(a: TypeExpr, b: TypeExpr) -> bool
    decreases a, 0nat,
{
    match (a, b) {
        (TypeExpr::Named(x), TypeExpr::Named(y)) => x@ == y@,
        (TypeExpr::EnumApp { name: n1, args: a1 }, TypeExpr::EnumApp { name: n2, args: a2 }) =>
            n1@ == n2@ && same_types(a1@, a2@),
        (TypeExpr::Infer, TypeExpr::Infer) => true,
        (TypeExpr::Unit, TypeExpr::Unit) => true,
        (TypeExpr::Tuple(p1), TypeExpr::Tuple(p2)) => same_types(p1@, p2@),
        (TypeExpr::Array(x), TypeExpr::Array(y)) => same_type(*x, *y),
        (TypeExpr::Function { params: p1, ret: r1 }, TypeExpr::Function { params: p2, ret: r2 }) =>
            same_params(p1@, p2@) && same_type(*r1, *r2),
        (TypeExpr::TypeParam(x), TypeExpr::TypeParam(y)) => x@ == y@,
        _ => false,
    }
}

/// The two lists hold the same types, in order.
pub open spec fn same_types(a: Seq<TypeExpr>, b: Seq<TypeExpr>) -> bool
    decreases a, 1nat,
{
    if a.len() != b.len() {
        false
    } else if a.len() == 0 {
        true
    } else {
        same_types(a.drop_last(), b.drop_last()) && same_type(a.last(), b.last())
    }
}

/// The two lists hold the same function-type parameters, in order.
pub open spec fn same_params(a: Seq<FunctionTypeParam>, b: Seq<FunctionTypeParam>) -> bool
    decreases a, 1nat,
{
    if a.len() != b.len() {
        false
    } else if a.len() == 0 {
        true
    } else {
        &&& same_params(a.drop_last(), b.drop_last())
        &&& same_type(a.last().ty, b.last().ty)
        &&& a.last().has_default == b.last().has_default
        &&& match (a.last().name, b.last().name) {
            (Some(x), Some(y)) => x@ == y@,
            (None, None) => true,
            _ => false,
        }
    }
}

fn type_eq(a: &TypeExpr, b: &TypeExpr) -> (r: bool)
    ensures
        r == same_type(*a, *b),
    decreases a, 0nat,
{
    match (a, b) {
        (TypeExpr::Named(x), TypeExpr::Named(y)) => str_is(x, y.as_str()),
        (TypeExpr::EnumApp { name: n1, args: a1 }, TypeExpr::EnumApp { name: n2, args: a2 }) =>
            str_is(n1, n2.as_str()) && types_eq(a1, a2),
        (TypeExpr::Infer, TypeExpr::Infer) => true,
        (TypeExpr::Unit, TypeExpr::Unit) => true,
        (TypeExpr::Tuple(p1), TypeExpr::Tuple(p2)) => types_eq(p1, p2),
        (TypeExpr::Array(x), TypeExpr::Array(y)) => type_eq(&**x, &**y),
        (TypeExpr::Function { params: p1, ret: r1 }, TypeExpr::Function { params: p2, ret: r2 }) =>
            params_eq(p1, p2) && type_eq(&**r1, &**r2),
        (TypeExpr::TypeParam(x), TypeExpr::TypeParam(y)) => str_is(x, y.as_str()),
        _ => false,
    }
}

fn types_eq(a: &Vec<TypeExpr>, b: &Vec<TypeExpr>) -> (r: bool)
    ensures
        r == same_types(a@, b@),
    decreases a, 1nat,
{
    if a.len() != b.len() {
        return false;
    }
    let mut i: usize = 0;
    while i < a.len()
        invariant
            i <= a@.len(),
            a@.len() == b@.len(),
            same_types(a@.take(i as int), b@.take(i as int)),
        decreases a@.len() - i,
    {
        assert(a@.take(i + 1).drop_last() == a@.take(i as int));
        assert(b@.take(i + 1).drop_last() == b@.take(i as int));
        if !type_eq(&a[i], &b[i]) {
            proof {
                if same_types(a@, b@) {
                    lemma_same_types_index(a@, b@, i as int);
                }
            }
            return false;
        }
        i += 1;
    }
    assert(a@.take(a@.len() as int) == a@);
    assert(b@.take(b@.len() as int) == b@);
    true
}

proof fn lemma_same_types_index(a: Seq<TypeExpr>, b: Seq<TypeExpr>, i: int)
    requires
        0 <= i < a.len(),
        same_types(a, b),
    ensures
        same_type(a[i], b[i]),
    decreases a.len(),
{
    if i < a.len() - 1 {
        lemma_same_types_index(a.drop_last(), b.drop_last(), i);
    }
}

proof fn lemma_same_params_index(a: Seq<FunctionTypeParam>, b: Seq<FunctionTypeParam>, i: int)
    requires
        0 <= i < a.len(),
        same_params(a, b),
    ensures
        same_type(a[i].ty, b[i].ty),
        a[i].has_default == b[i].has_default,
        match (a[i].name, b[i].name) {
            (Some(x), Some(y)) => x@ == y@,
            (None, None) => true,
            _ => false,
        },
    decreases a.len(),
{
    if i < a.len() - 1 {
        lemma_same_params_index(a.drop_last(), b.drop_last(), i);
    }
}

fn params_eq(a: &Vec<FunctionTypeParam>, b: &Vec<FunctionTypeParam>) -> (r: bool)
    ensures
        r == same_params(a@, b@),
    decreases a, 1nat,
{
    if a.len() != b.len() {
        return false;
    }
    let mut i: usize = 0;
    while i < a.len()
        invariant
            i <= a@.len(),
            a@.len() == b@.len(),
            same_params(a@.take(i as int), b@.take(i as int)),
        decreases a@.len() - i,
    {
        assert(a@.take(i + 1).drop_last() == a@.take(i as int));
        assert(b@.take(i + 1).drop_last() == b@.take(i as int));
        let names_match = match (&a[i].name, &b[i].name) {
            (Some(x), Some(y)) => str_is(x, y.as_str()),
            (None, None) => true,
            _ => false,
        };
        if !names_match || a[i].has_default != b[i].has_default || !type_eq(&a[i].ty, &b[i].ty) {
            proof {
                if same_params(a@, b@) {
                    lemma_same_params_index(a@, b@, i as int);
                }
            }
            return false;
        }
        i += 1;
    }
    assert(a@.take(a@.len() as int) == a@);
    assert(b@.take(b@.len() as int) == b@);
    true
}

impl BuiltinImpl for CloneBuiltin {
    open spec fn name_spec(&self) -> Seq<char> {
        "clone"@
    }

    open spec fn decl_error(&self, params: Seq<Param>, return_type: Option<TypeExpr>) -> Option<Seq<char>> {
        if params.len() != 1 {
            Some("`clone` must have exactly 1 parameter"@)
        } else if !(return_type matches Some(rt) && same_type(rt, params[0].ty)) {
            Some("internal `clone` must be `clone<T>(value: T): T;`"@)
        } else {
            None
        }
    }

    fn name(&self) -> (r: &'static str) {
        "clone"
    }

    fn validate_decl(&self, params: &[Param], return_type: &Option<TypeExpr>, name_span: Span) -> (r: Result<(), BuiltinError>) {
        if params.len() != 1 {
            return Err(BuiltinError::new(lit("`clone` must have exactly 1 parameter"), Some(name_span)));
        }
        let same = match return_type {
            Some(rt) => type_eq(rt, &params[0].ty),
            None => false,
        };
        if !same {
            return Err(BuiltinError::new(lit("internal `clone` must be `clone<T>(value: T): T;`"), Some(name_span)));
        }
        Ok(())
    }
}

/// Every type expression is the same type as itself.
pub proof fn lemma_same_type_reflexive(t: TypeExpr)
    ensures
        same_type(t, t),
    decreases t, 0nat,
{
    match t {
        TypeExpr::EnumApp { args, .. } => lemma_same_types_reflexive(args@),
        TypeExpr::Tuple(p) => lemma_same_types_reflexive(p@),
        TypeExpr::Array(x) => lemma_same_type_reflexive(*x),
        TypeExpr::Function { params, ret } => {
            lemma_same_params_reflexive(params@);
            lemma_same_type_reflexive(*ret);
        },
        _ => {},
    }
}

/// Every list of types holds the same types as itself.
pub proof fn lemma_same_types_reflexive(s: Seq<TypeExpr>)
    ensures
        same_types(s, s),
    decreases s, 1nat,
{
    if s.len() > 0 {
        lemma_same_types_reflexive(s.drop_last());
        lemma_same_type_reflexive(s.last());
    }
}

/// Every list of function-type parameters holds the same parameters as itself.
pub proof fn lemma_same_params_reflexive(s: Seq<FunctionTypeParam>)
    ensures
        same_params(s, s),
    decreases s, 1nat,
{
    if s.len() > 0 {
        lemma_same_params_reflexive(s.drop_last());
        lemma_same_type_reflexive(s.last().ty);
    }
}

/// `clone<T>(value: T): T`: a declaration with one parameter whose result type is written
/// as the parameter's type is accepted, whatever that type; one with another number of
/// parameters, without a result type, or with a result named differently from a named
/// parameter type is refused.
pub proof fn lemma_clone_signature(b: CloneBuiltin, params: Seq<Param>, ret: Option<TypeExpr>)
    ensures
        params.len() == 1 && ret == Some(params[0].ty) ==> b.decl_error(params, ret) is None,
        params.len() != 1 || ret is None ==> b.decl_error(params, ret) is Some,
        params.len() == 1 && (ret matches Some(TypeExpr::Named(x)) && params[0].ty matches TypeExpr::Named(y) && x@ != y@)
            ==> b.decl_error(params, ret) is Some,
{
    if params.len() == 1 {
        lemma_same_type_reflexive(params[0].ty);
    }
}

} // verus!
