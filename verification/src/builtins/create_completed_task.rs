use vstd::prelude::*;
use crate::ast::{Param, TypeExpr};
use crate::error::Span;
use crate::text::lit;
use super::{is_task_type, task_type, BuiltinError, BuiltinImpl, returns_task};

verus! {

/// `internal async func create_completed_task_async(value: T): Task<T>;`
pub struct CreateCompletedTaskBuiltin;

impl BuiltinImpl for CreateCompletedTaskBuiltin {
    open spec fn name_spec(&self) -> Seq<char> {
        "create_completed_task_async"@
    }

    open spec fn decl_error(&self, params: Seq<Param>, return_type: Option<TypeExpr>) -> Option<Seq<char>> {
        if params.len() != 1 {
            Some("internal `create_completed_task_async` must take one `value` parameter"@)
        } else if params[0].is_params || params[0].is_wildcard {
            Some("internal `create_completed_task_async` must take a single value parameter"@)
        } else {
            match return_type {
                None => Some("internal `create_completed_task_async` must return `Task`"@),
                Some(t) => if task_type(t) {
                    None
                } else {
                    Some("internal `create_completed_task_async` must return `Task` or `Task<...>`"@)
                },
            }
        }
    }

    fn name(&self) -> (r: &'static str) {
        "create_completed_task_async"
    }

    fn validate_decl(&self, params: &[Param], return_type: &Option<TypeExpr>, name_span: Span) -> (r: Result<(), BuiltinError>) {
        if params.len() != 1 {
            return Err(BuiltinError::new(
                lit("internal `create_completed_task_async` must take one `value` parameter"),
                Some(name_span),
            ));
        }
        if params[0].is_params || params[0].is_wildcard {
            return Err(BuiltinError::new(
                lit("internal `create_completed_task_async` must take a single value parameter"),
                Some(name_span),
            ));
        }
        let rt = match return_type {
            Some(rt) => rt,
            None => {
                return Err(BuiltinError::new(
                    lit("internal `create_completed_task_async` must return `Task`"),
                    Some(name_span),
                ));
            },
        };
        if is_task_type(rt) {
            Ok(())
        } else {
            Err(BuiltinError::new(
                lit("internal `create_completed_task_async` must return `Task` or `Task<...>`"),
                Some(name_span),
            ))
        }
    }
}

/// `create_completed_task_async(value: T): Task<T>`: a declaration is accepted exactly when
/// it has one plain parameter (neither `params` nor `_`), of any type, and returns `Task`
/// or `Task<...>`.
pub proof fn lemma_create_completed_task_signature(b: CreateCompletedTaskBuiltin, params: Seq<Param>, ret: Option<TypeExpr>)
    ensures
        b.decl_error(params, ret) is None <==> params.len() == 1 && !params[0].is_params && !params[0].is_wildcard
            && returns_task(ret),
{
}

} // verus!
