use vstd::prelude::*;
use crate::ast::{Param, TypeExpr};
use crate::error::Span;
use crate::text::lit;
use super::{BuiltinError, BuiltinImpl};

verus! {

/// `internal func print_gen<T>(value: T);` (its type parameters are checked elsewhere).
pub struct PrintGenBuiltin;

impl BuiltinImpl for PrintGenBuiltin {
    open spec fn name_spec(&self) -> Seq<char> {
        "print_gen"@
    }

    open spec fn decl_error(&self, params: Seq<Param>, return_type: Option<TypeExpr>) -> Option<Seq<char>> {
        if params.len() != 1 {
            Some("`print_gen` must have exactly 1 parameter"@)
        } else if return_type is Some {
            Some("internal `print_gen` must have no return type"@)
        } else {
            None
        }
    }

    fn name(&self) -> (r: &'static str) {
        "print_gen"
    }

    fn validate_decl(&self, params: &[Param], return_type: &Option<TypeExpr>, name_span: Span) -> (r: Result<(), BuiltinError>) {
        if params.len() != 1 {
            return Err(BuiltinError::new(lit("`print_gen` must have exactly 1 parameter"), Some(name_span)));
        }
        if return_type.is_some() {
            return Err(BuiltinError::new(lit("internal `print_gen` must have no return type"), Some(name_span)));
        }
        Ok(())
    }
}

/// `print_gen<T>(value: T)`: a declaration is accepted exactly when it has one parameter,
/// of any type, and no result type.
pub proof fn lemma_print_gen_signature(b: PrintGenBuiltin, params: Seq<Param>, ret: Option<TypeExpr>)
    ensures
        b.decl_error(params, ret) is None <==> params.len() == 1 && ret is None,
{
}

} // verus!
