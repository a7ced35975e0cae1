use vstd::prelude::*;
use crate::ast::{Param, TypeExpr};
use crate::error::Span;
use crate::text::lit;
use super::{is_named, named_is, BuiltinError, BuiltinImpl, params_named, returns_named};

verus! {

/// `internal func input(): String;`
pub struct InputBuiltin;

impl BuiltinImpl for InputBuiltin {
    open spec fn name_spec(&self) -> Seq<char> {
        "input"@
    }

    open spec fn decl_error(&self, params: Seq<Param>, return_type: Option<TypeExpr>) -> Option<Seq<char>> {
        if params.len() != 0 {
            Some("internal `input` must be `input(): String`"@)
        } else {
            match return_type {
                Some(t) => if named_is(t, "String"@) { None } else { Some("internal `input` must return `String`"@) },
                None => Some("internal `input` must return `String`"@),
            }
        }
    }

    fn name(&self) -> (r: &'static str) {
        "input"
    }

    fn validate_decl(&self, params: &[Param], return_type: &Option<TypeExpr>, name_span: Span) -> (r: Result<(), BuiltinError>) {
        if params.len() != 0 {
            return Err(BuiltinError::new(lit("internal `input` must be `input(): String`"), Some(name_span)));
        }
        match return_type {
            Some(t) => {
                if is_named(t, "String") {
                    return Ok(());
                }
            },
            None => {},
        }
        Err(BuiltinError::new(lit("internal `input` must return `String`"), Some(name_span)))
    }
}

/// `input` accepts exactly the declaration `input(): String`: no parameters, in
/// order, and a `String` result; a declaration with any other parameter or result type is refused.
pub proof fn lemma_input_signature(b: InputBuiltin, params: Seq<Param>, ret: Option<TypeExpr>)
    ensures
        b.decl_error(params, ret) is None <==> params_named(params, Seq::<Seq<char>>::empty()) && returns_named(ret, "String"@),
{
}

} // verus!
