use vstd::prelude::*;
use crate::ast::{Param, TypeExpr};
use crate::error::Span;
use crate::text::lit;
use super::{is_task_type, task_type, BuiltinError, BuiltinImpl, returns_task, written_task};

verus! {

/// `internal async func wait_all_tasks_async(tasks: [Task<...>]): Task;`
pub struct WaitAllTasksBuiltin;

/// `tasks` is an array of tasks.
pub open spec fn task_array(t: TypeExpr) -> bool {
    t matches TypeExpr::Array(inner) && task_type(*inner)
}

impl BuiltinImpl for WaitAllTasksBuiltin {
    open spec fn name_spec(&self) -> Seq<char> {
        "wait_all_tasks_async"@
    }

    open spec fn decl_error(&self, params: Seq<Param>, return_type: Option<TypeExpr>) -> Option<Seq<char>> {
        if params.len() != 1 {
            Some("internal `wait_all_tasks_async` must take one `tasks` array parameter"@)
        } else if params[0].is_params || params[0].is_wildcard || !task_array(params[0].ty) {
            Some("internal `wait_all_tasks_async` must take `tasks: [Task<...>]`"@)
        } else {
            match return_type {
                None => Some("internal `wait_all_tasks_async` must return `Task`"@),
                Some(t) => if task_type(t) {
                    None
                } else {
                    Some("internal `wait_all_tasks_async` must return `Task` or `Task<...>`"@)
                },
            }
        }
    }

    fn name(&self) -> (r: &'static str) {
        "wait_all_tasks_async"
    }

    fn validate_decl(&self, params: &[Param], return_type: &Option<TypeExpr>, name_span: Span) -> (r: Result<(), BuiltinError>) {
        if params.len() != 1 {
            return Err(BuiltinError::new(
                lit("internal `wait_all_tasks_async` must take one `tasks` array parameter"),
                Some(name_span),
            ));
        }
        if params[0].is_params || params[0].is_wildcard {
            return Err(BuiltinError::new(lit("internal `wait_all_tasks_async` must take `tasks: [Task<...>]`"), Some(name_span)));
        }
        let ok_elem = match &params[0].ty {
            TypeExpr::Array(inner) => is_task_type(&**inner),
            _ => false,
        };
        if !ok_elem {
            return Err(BuiltinError::new(lit("internal `wait_all_tasks_async` must take `tasks: [Task<...>]`"), Some(name_span)));
        }
        let rt = match return_type {
            Some(rt) => rt,
            None => {
                return Err(BuiltinError::new(lit("internal `wait_all_tasks_async` must return `Task`"), Some(name_span)));
            },
        };
        if is_task_type(rt) {
            Ok(())
        } else {
            Err(BuiltinError::new(lit("internal `wait_all_tasks_async` must return `Task` or `Task<...>`"), Some(name_span)))
        }
    }
}

/// `t` is an array whose elements are written `Task` or `Task<...>`.
pub open spec fn array_of_tasks(t: TypeExpr) -> bool {
    match t {
        TypeExpr::Array(inner) => written_task(*inner),
        _ => false,
    }
}

/// `wait_all_tasks_async(tasks: [Task<...>]): Task`: a declaration is accepted exactly when
/// it has one plain parameter (neither `params` nor `_`) that is an array of `Task` or
/// `Task<...>`, and returns `Task` or `Task<...>`.
pub proof fn lemma_wait_all_tasks_signature(b: WaitAllTasksBuiltin, params: Seq<Param>, ret: Option<TypeExpr>)
    ensures
        b.decl_error(params, ret) is None <==> params.len() == 1 && !params[0].is_params && !params[0].is_wildcard
            && array_of_tasks(params[0].ty) && returns_task(ret),
{
}

} // verus!
