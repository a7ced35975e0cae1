use vstd::prelude::*;
use crate::ast::{Param, TypeExpr};
use crate::error::Span;
use crate::text::lit;
use super::{is_named, named_is, BuiltinError, BuiltinImpl, returns_named};

verus! {

/// `internal func int_array_len(a: [T]): Int;`
pub struct IntArrayLenBuiltin;

impl BuiltinImpl for IntArrayLenBuiltin {
    open spec fn name_spec(&self) -> Seq<char> {
        "int_array_len"@
    }

    open spec fn decl_error(&self, params: Seq<Param>, return_type: Option<TypeExpr>) -> Option<Seq<char>> {
        if params.len() != 1 {
            Some("int_array_len expects exactly one parameter"@)
        } else if !(params[0].ty is Array) {
            Some("int_array_len expects an array parameter"@)
        } else {
            match return_type {
                Some(t) => if named_is(t, "Int"@) { None } else { Some("int_array_len return type must be `Int`"@) },
                None => Some("int_array_len return type must be `Int`"@),
            }
        }
    }

    fn name(&self) -> (r: &'static str) {
        "int_array_len"
    }

    fn validate_decl(&self, params: &[Param], return_type: &Option<TypeExpr>, name_span: Span) -> (r: Result<(), BuiltinError>) {
        if params.len() != 1 {
            return Err(BuiltinError::new(lit("int_array_len expects exactly one parameter"), Some(name_span)));
        }
        if !matches!(params[0].ty, TypeExpr::Array(_)) {
            return Err(BuiltinError::new(lit("int_array_len expects an array parameter"), Some(name_span)));
        }
        match return_type {
            Some(rt) => {
                if !is_named(rt, "Int") {
                    return Err(BuiltinError::new(lit("int_array_len return type must be `Int`"), Some(name_span)));
                }
            },
            None => {
                return Err(BuiltinError::new(lit("int_array_len return type must be `Int`"), Some(name_span)));
            },
        }
        Ok(())
    }
}

/// `int_array_len(a: [T]): Int`: a declaration is accepted exactly when it has one
/// parameter, of an array type, and an `Int` result.
pub proof fn lemma_int_array_len_signature(b: IntArrayLenBuiltin, params: Seq<Param>, ret: Option<TypeExpr>)
    ensures
        b.decl_error(params, ret) is None <==> params.len() == 1 && params[0].ty is Array && returns_named(ret, "Int"@),
{
}

} // verus!
