use vstd::prelude::*;
use crate::ast::{Param, TypeExpr};
use crate::error::Span;
use crate::text::lit;
use super::{is_named, named_is, BuiltinError, BuiltinImpl, params_named, returns_named};

verus! {

/// `internal func itos(s: Int): String;`
pub struct ItosBuiltin;

impl BuiltinImpl for ItosBuiltin {
    open spec fn name_spec(&self) -> Seq<char> {
        "itos"@
    }

    open spec fn decl_error(&self, params: Seq<Param>, return_type: Option<TypeExpr>) -> Option<Seq<char>> {
        if params.len() != 1 || !named_is(params[0].ty, "Int"@) {
            Some("internal `itos` must be `itos(s: Int): String`"@)
        } else {
            match return_type {
                Some(t) => if named_is(t, "String"@) { None } else { Some("internal `itos` must return `String`"@) },
                None => Some("internal `itos` must return `String`"@),
            }
        }
    }

    fn name(&self) -> (r: &'static str) {
        "itos"
    }

    fn validate_decl(&self, params: &[Param], return_type: &Option<TypeExpr>, name_span: Span) -> (r: Result<(), BuiltinError>) {
        if params.len() != 1 || !is_named(&params[0].ty, "Int") {
            return Err(BuiltinError::new(lit("internal `itos` must be `itos(s: Int): String`"), Some(name_span)));
        }
        match return_type {
            Some(t) => {
                if is_named(t, "String") {
                    return Ok(());
                }
            },
            None => {},
        }
        Err(BuiltinError::new(lit("internal `itos` must return `String`"), Some(name_span)))
    }
}

/// `itos` accepts exactly the declaration `itos(s: Int): String`: `Int` parameter, in
/// order, and a `String` result; a declaration with any other parameter or result type is refused.
pub proof fn lemma_itos_signature(b: ItosBuiltin, params: Seq<Param>, ret: Option<TypeExpr>)
    ensures
        b.decl_error(params, ret) is None <==> params_named(params, seq!["Int"@]) && returns_named(ret, "String"@),
{
}

} // verus!
