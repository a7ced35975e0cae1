use vstd::prelude::*;
use crate::ast::{Param, TypeExpr};
use crate::error::Span;
use crate::text::lit;
use super::{is_named, named_is, BuiltinError, BuiltinImpl, params_named};

verus! {

/// `internal func print(s: String);`
pub struct PrintBuiltin;

impl BuiltinImpl for PrintBuiltin {
    open spec fn name_spec(&self) -> Seq<char> {
        "print"@
    }

    open spec fn decl_error(&self, params: Seq<Param>, return_type: Option<TypeExpr>) -> Option<Seq<char>> {
        if params.len() != 1 || !named_is(params[0].ty, "String"@) {
            Some("internal `print` must be `print(s: String);`"@)
        } else if return_type is Some {
            Some("internal `print` must have no return type"@)
        } else {
            None
        }
    }

    fn name(&self) -> (r: &'static str) {
        "print"
    }

    fn validate_decl(&self, params: &[Param], return_type: &Option<TypeExpr>, name_span: Span) -> (r: Result<(), BuiltinError>) {
        if params.len() != 1 || !is_named(&params[0].ty, "String") {
            return Err(BuiltinError::new(lit("internal `print` must be `print(s: String);`"), Some(name_span)));
        }
        if return_type.is_some() {
            return Err(BuiltinError::new(lit("internal `print` must have no return type"), Some(name_span)));
        }
        Ok(())
    }
}

/// `print` accepts exactly the declaration `print(s: String)`: `String` parameter, in
/// order, and no result type; a declaration with any other parameter or result type is refused.
pub proof fn lemma_print_signature(b: PrintBuiltin, params: Seq<Param>, ret: Option<TypeExpr>)
    ensures
        b.decl_error(params, ret) is None <==> params_named(params, seq!["String"@]) && ret is None,
{
}

} // verus!
