use vstd::prelude::*;
use crate::ast::{Param, TypeExpr};
use crate::error::Span;
use crate::text::lit;
use super::{is_named, named_is, BuiltinError, BuiltinImpl, params_named, returns_named};

verus! {

/// `internal func stoi(s: String): Int;`
pub struct StoiBuiltin;

impl BuiltinImpl for StoiBuiltin {
    open spec fn name_spec(&self) -> Seq<char> {
        "stoi"@
    }

    open spec fn decl_error(&self, params: Seq<Param>, return_type: Option<TypeExpr>) -> Option<Seq<char>> {
        if params.len() != 1 || !named_is(params[0].ty, "String"@) {
            Some("internal `stoi` must be `stoi(s: String): Int`"@)
        } else {
            match return_type {
                Some(t) => if named_is(t, "Int"@) { None } else { Some("internal `stoi` must return `Int`"@) },
                None => Some("internal `stoi` must return `Int`"@),
            }
        }
    }

    fn name(&self) -> (r: &'static str) {
        "stoi"
    }

    fn validate_decl(&self, params: &[Param], return_type: &Option<TypeExpr>, name_span: Span) -> (r: Result<(), BuiltinError>) {
        if params.len() != 1 || !is_named(&params[0].ty, "String") {
            return Err(BuiltinError::new(lit("internal `stoi` must be `stoi(s: String): Int`"), Some(name_span)));
        }
        match return_type {
            Some(t) => {
                if is_named(t, "Int") {
                    return Ok(());
                }
            },
            None => {},
        }
        Err(BuiltinError::new(lit("internal `stoi` must return `Int`"), Some(name_span)))
    }
}

/// `stoi` accepts exactly the declaration `stoi(s: String): Int`: `String` parameter, in
/// order, and a `Int` result; a declaration with any other parameter or result type is refused.
pub proof fn lemma_stoi_signature(b: StoiBuiltin, params: Seq<Param>, ret: Option<TypeExpr>)
    ensures
        b.decl_error(params, ret) is None <==> params_named(params, seq!["String"@]) && returns_named(ret, "Int"@),
{
}

} // verus!
