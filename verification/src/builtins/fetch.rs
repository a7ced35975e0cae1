use vstd::prelude::*;
use crate::ast::{Param, TypeExpr};
use crate::error::Span;
use crate::text::{lit, str_is};
use super::{is_named, named_is, BuiltinError, BuiltinImpl, params_named};

verus! {

/// `internal async func fetch(request: Request): Task<Response>;`
pub struct FetchBuiltin;

/// `t` is `Task<Response>`.
pub open spec fn task_of_response(t: TypeExpr) -> bool {
    t matches TypeExpr::EnumApp { name, args } && name@ == "Task"@ && args@.len() == 1
        && named_is(args@[0], "Response"@)
}

impl BuiltinImpl for FetchBuiltin {
    open spec fn name_spec(&self) -> Seq<char> {
        "fetch"@
    }

    open spec fn decl_error(&self, params: Seq<Param>, return_type: Option<TypeExpr>) -> Option<Seq<char>> {
        if params.len() != 1 {
            Some("internal `fetch` must take one `request: Request` parameter"@)
        } else if params[0].is_params || params[0].is_wildcard || !named_is(params[0].ty, "Request"@) {
            Some("internal `fetch` must be declared as `fetch(request: Request): Task<Response>`"@)
        } else {
            match return_type {
                Some(t) => if task_of_response(t) { None } else { Some("internal `fetch` must return `Task<Response>`"@) },
                None => Some("internal `fetch` must return `Task<Response>`"@),
            }
        }
    }

    fn name(&self) -> (r: &'static str) {
        "fetch"
    }

    fn validate_decl(&self, params: &[Param], return_type: &Option<TypeExpr>, name_span: Span) -> (r: Result<(), BuiltinError>) {
        if params.len() != 1 {
            return Err(BuiltinError::new(lit("internal `fetch` must take one `request: Request` parameter"), Some(name_span)));
        }
        if params[0].is_params || params[0].is_wildcard || !is_named(&params[0].ty, "Request") {
            return Err(BuiltinError::new(
                lit("internal `fetch` must be declared as `fetch(request: Request): Task<Response>`"),
                Some(name_span),
            ));
        }
        let ok = match return_type {
            Some(TypeExpr::EnumApp { name, args }) => str_is(name, "Task") && args.len() == 1 && is_named(&args[0], "Response"),
            _ => false,
        };
        if ok {
            Ok(())
        } else {
            Err(BuiltinError::new(lit("internal `fetch` must return `Task<Response>`"), Some(name_span)))
        }
    }
}

/// The result type `ret` is written `Task<Response>`.
pub open spec fn returns_task_of_response(ret: Option<TypeExpr>) -> bool {
    match ret {
        Some(TypeExpr::EnumApp { name, args }) => name@ == "Task"@ && args@.len() == 1 && match args@[0] {
            TypeExpr::Named(x) => x@ == "Response"@,
            _ => false,
        },
        _ => false,
    }
}

/// `fetch(request: Request): Task<Response>`: a declaration is accepted exactly when it has
/// one plain `Request` parameter (neither `params` nor `_`) and returns `Task<Response>`.
pub proof fn lemma_fetch_signature(b: FetchBuiltin, params: Seq<Param>, ret: Option<TypeExpr>)
    ensures
        b.decl_error(params, ret) is None <==> params_named(params, seq!["Request"@]) && !params[0].is_params
            && !params[0].is_wildcard && returns_task_of_response(ret),
{
}

} // verus!
