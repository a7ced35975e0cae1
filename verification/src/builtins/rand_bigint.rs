use vstd::prelude::*;
use crate::ast::{Param, TypeExpr};
use crate::error::Span;
use crate::text::lit;
use super::{is_named, named_is, BuiltinError, BuiltinImpl, params_named, returns_named};

verus! {

/// `internal func rand_bigint(bits: Int): Int;`
pub struct RandBigIntBuiltin;

impl BuiltinImpl for RandBigIntBuiltin {
    open spec fn name_spec(&self) -> Seq<char> {
        "rand_bigint"@
    }

    open spec fn decl_error(&self, params: Seq<Param>, return_type: Option<TypeExpr>) -> Option<Seq<char>> {
        if params.len() != 1 || !named_is(params[0].ty, "Int"@) {
            Some("internal `rand_bigint` must be `rand_bigint(bits: Int): Int`"@)
        } else {
            match return_type {
                Some(t) => if named_is(t, "Int"@) { None } else { Some("internal `rand_bigint` must return `Int`"@) },
                None => Some("internal `rand_bigint` must return `Int`"@),
            }
        }
    }

    fn name(&self) -> (r: &'static str) {
        "rand_bigint"
    }

    fn validate_decl(&self, params: &[Param], return_type: &Option<TypeExpr>, name_span: Span) -> (r: Result<(), BuiltinError>) {
        if params.len() != 1 || !is_named(&params[0].ty, "Int") {
            return Err(BuiltinError::new(lit("internal `rand_bigint` must be `rand_bigint(bits: Int): Int`"), Some(name_span)));
        }
        match return_type {
            Some(t) => {
                if is_named(t, "Int") {
                    return Ok(());
                }
            },
            None => {},
        }
        Err(BuiltinError::new(lit("internal `rand_bigint` must return `Int`"), Some(name_span)))
    }
}

/// `rand_bigint` accepts exactly the declaration `rand_bigint(bits: Int): Int`: `Int` parameter, in
/// order, and a `Int` result; a declaration with any other parameter or result type is refused.
pub proof fn lemma_rand_bigint_signature(b: RandBigIntBuiltin, params: Seq<Param>, ret: Option<TypeExpr>)
    ensures
        b.decl_error(params, ret) is None <==> params_named(params, seq!["Int"@]) && returns_named(ret, "Int"@),
{
}

} // verus!
