use vstd::prelude::*;
use crate::ast::{Param, TypeExpr};
use crate::error::Span;
use crate::text::lit;
use super::{is_named, named_is, BuiltinError, BuiltinImpl, params_named, returns_named};

verus! {

/// `internal func concat(s1: String, s2: String): String;`
pub struct ConcatBuiltin;

impl BuiltinImpl for ConcatBuiltin {
    open spec fn name_spec(&self) -> Seq<char> {
        "concat"@
    }

    open spec fn decl_error(&self, params: Seq<Param>, return_type: Option<TypeExpr>) -> Option<Seq<char>> {
        if params.len() != 2 || !named_is(params[0].ty, "String"@) || !named_is(params[1].ty, "String"@) {
            Some("internal `concat` must be `concat(s1: String, s2: String): String`"@)
        } else {
            match return_type {
                Some(t) => if named_is(t, "String"@) { None } else { Some("internal `concat` must return `String`"@) },
                None => Some("internal `concat` must return `String`"@),
            }
        }
    }

    fn name(&self) -> (r: &'static str) {
        "concat"
    }

    fn validate_decl(&self, params: &[Param], return_type: &Option<TypeExpr>, name_span: Span) -> (r: Result<(), BuiltinError>) {
        if params.len() != 2 || !is_named(&params[0].ty, "String") || !is_named(&params[1].ty, "String") {
            return Err(BuiltinError::new(
                lit("internal `concat` must be `concat(s1: String, s2: String): String`"),
                Some(name_span),
            ));
        }
        match return_type {
            Some(t) => {
                if is_named(t, "String") {
                    return Ok(());
                }
            },
            None => {},
        }
        Err(BuiltinError::new(lit("internal `concat` must return `String`"), Some(name_span)))
    }
}

/// `concat` accepts exactly the declaration `concat(s1: String, s2: String): String`: `String`, `String` parameters, in
/// order, and a `String` result; a declaration with any other parameter or result type is refused.
pub proof fn lemma_concat_signature(b: ConcatBuiltin, params: Seq<Param>, ret: Option<TypeExpr>)
    ensures
        b.decl_error(params, ret) is None <==> params_named(params, seq!["String"@, "String"@]) && returns_named(ret, "String"@),
{
}

} // verus!
