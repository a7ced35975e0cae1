use vstd::prelude::*;
use crate::ast::{Param, TypeExpr};
use crate::error::Span;
use crate::text::lit;
use super::{is_named, is_task_type, named_is, task_type, BuiltinError, BuiltinImpl, params_named, returns_task};

verus! {

/// `internal async func sleep(milliseconds: Int): Task;`, a non-blocking timer.
pub struct SleepBuiltin;

impl BuiltinImpl for SleepBuiltin {
    open spec fn name_spec(&self) -> Seq<char> {
        "sleep"@
    }

    open spec fn decl_error(&self, params: Seq<Param>, return_type: Option<TypeExpr>) -> Option<Seq<char>> {
        if params.len() != 1 || params[0].is_params || params[0].is_wildcard || !named_is(params[0].ty, "Int"@) {
            Some("internal `sleep` must be `sleep(milliseconds: Int): Task`"@)
        } else {
            match return_type {
                None => Some("internal `sleep` must return `Task`"@),
                Some(t) => if task_type(t) { None } else { Some("internal `sleep` must return `Task` or `Task<...>`"@) },
            }
        }
    }

    fn name(&self) -> (r: &'static str) {
        "sleep"
    }

    fn validate_decl(&self, params: &[Param], return_type: &Option<TypeExpr>, name_span: Span) -> (r: Result<(), BuiltinError>) {
        if params.len() != 1 {
            return Err(BuiltinError::new(lit("internal `sleep` must be `sleep(milliseconds: Int): Task`"), Some(name_span)));
        }
        if params[0].is_params || params[0].is_wildcard {
            return Err(BuiltinError::new(lit("internal `sleep` must be `sleep(milliseconds: Int): Task`"), Some(name_span)));
        }
        if !is_named(&params[0].ty, "Int") {
            return Err(BuiltinError::new(lit("internal `sleep` must be `sleep(milliseconds: Int): Task`"), Some(name_span)));
        }
        let rt = match return_type {
            Some(rt) => rt,
            None => {
                return Err(BuiltinError::new(lit("internal `sleep` must return `Task`"), Some(name_span)));
            },
        };
        if is_task_type(rt) {
            Ok(())
        } else {
            Err(BuiltinError::new(lit("internal `sleep` must return `Task` or `Task<...>`"), Some(name_span)))
        }
    }
}

/// `sleep(milliseconds: Int): Task`: a declaration is accepted exactly when it has one
/// plain `Int` parameter (neither `params` nor `_`) and returns `Task` or `Task<...>`.
pub proof fn lemma_sleep_signature(b: SleepBuiltin, params: Seq<Param>, ret: Option<TypeExpr>)
    ensures
        b.decl_error(params, ret) is None <==> params_named(params, seq!["Int"@]) && !params[0].is_params
            && !params[0].is_wildcard && returns_task(ret),
{
}

} // verus!
