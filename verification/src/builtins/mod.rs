//! Host-provided builtin functions: the signatures an `internal func` declaration
//! must have to bind to each builtin, and the registry that looks them up by name.

use vstd::prelude::*;
use crate::ast::{Param, TypeExpr};
use crate::error::Span;
use crate::text::{chars_to_string, lit, push_str, str_is};

pub mod clone;
pub mod concat;
pub mod create_completed_task;
pub mod dict;
pub mod fetch;
pub mod input;
pub mod int_array_len;
pub mod itos;
pub mod print;
pub mod print_gen;
pub mod print_int;
pub mod rand_bigint;
pub mod rand_int;
pub mod sleep;
pub mod stoi;
pub mod wait_all_tasks;

use clone::CloneBuiltin;
use concat::ConcatBuiltin;
use create_completed_task::CreateCompletedTaskBuiltin;
use dict::{DictContainsBuiltin, DictGetBuiltin, DictInsertBuiltin, DictRemoveBuiltin};
use input::InputBuiltin;
use int_array_len::IntArrayLenBuiltin;
use itos::ItosBuiltin;
use print::PrintBuiltin;
use print_gen::PrintGenBuiltin;
use print_int::PrintIntBuiltin;
use rand_bigint::RandBigIntBuiltin;
use rand_int::RandIntBuiltin;
use sleep::SleepBuiltin;
use stoi::StoiBuiltin;
use wait_all_tasks::WaitAllTasksBuiltin;
use fetch::FetchBuiltin;

verus! {

#[derive(Debug)]
pub struct BuiltinError {
    pub message: String,
    pub span: Option<Span>,
}

impl BuiltinError {
    pub fn new(message: String, span: Option<Span>) -> (e: Self)
        ensures
            e.message@ == message@,
            e.span == span,
    {
        BuiltinError { message, span }
    }
}

/// The outcome of checking a declaration: `Ok` when `error` is `None`, otherwise the
/// error with that message at `span`.
pub open spec fn decl_outcome(r: Result<(), BuiltinError>, error: Option<Seq<char>>, span: Span) -> bool {
    match error {
        None => r is Ok,
        Some(m) => r matches Err(e) && e.message@ == m && e.span == Some(span),
    }
}

/// A builtin the host provides to `internal func` declarations.
pub trait BuiltinImpl: Send + Sync {
    /// The builtin's registered name.
    spec fn name_spec(&self) -> Seq<char>;

    /// Why the declaration `params`/`return_type` does not match this builtin's
    /// signature, or `None` when it does.
    spec fn decl_error(&self, params: Seq<Param>, return_type: Option<TypeExpr>) -> Option<Seq<char>>;

    fn name(&self) -> (r: &'static str)
        ensures
            r@ == self.name_spec(),
    ;

    fn validate_decl(&self, params: &[Param], return_type: &Option<TypeExpr>, name_span: Span) -> (r: Result<
        (),
        BuiltinError,
    >)
        ensures
            decl_outcome(r, self.decl_error(params@, *return_type), name_span),
    ;
}

/// `t` is the plain named type `n`.
pub open spec fn named_is(t: TypeExpr, n: Seq<char>) -> bool {
    t matches TypeExpr::Named(x) && x@ == n
}

/// The parameters `params` have the plain named types `tys`, in order.
pub open spec fn params_named(params: Seq<Param>, tys: Seq<Seq<char>>) -> bool {
    &&& params.len() == tys.len()
    &&& forall|i: int| 0 <= i < tys.len() ==> ((#[trigger] params[i]).ty matches TypeExpr::Named(n) && n@ == tys[i])
}

/// The result type `ret` is the plain named type `n`.
pub open spec fn returns_named(ret: Option<TypeExpr>, n: Seq<char>) -> bool {
    ret matches Some(TypeExpr::Named(x)) && x@ == n
}

/// `t` is written `Task` or `Task<...>`.
pub open spec fn written_task(t: TypeExpr) -> bool {
    match t {
        TypeExpr::Named(x) => x@ == "Task"@,
        TypeExpr::EnumApp { name, .. } => name@ == "Task"@,
        _ => false,
    }
}

/// The result type `ret` is written `Task` or `Task<...>`.
pub open spec fn returns_task(ret: Option<TypeExpr>) -> bool {
    match ret {
        Some(t) => written_task(t),
        None => false,
    }
}

/// The name of `te` when it is a plain named type.
pub fn type_name_named(te: &TypeExpr) -> (r: Option<&String>)
    ensures
        match te {
            TypeExpr::Named(n) => r == Some(n),
            _ => r is None,
        },
{
    match te {
        TypeExpr::Named(n) => Some(n),
        _ => None,
    }
}

/// Whether `te` is the plain named type `n`.
pub fn is_named(te: &TypeExpr, n: &str) -> (r: bool)
    ensures
        r == named_is(*te, n@),
{
    match type_name_named(te) {
        Some(x) => str_is(x, n),
        None => false,
    }
}

/// `t` is `Task` or `Task<...>`.
pub open spec fn task_type(t: TypeExpr) -> bool {
    named_is(t, "Task"@) || (t matches TypeExpr::EnumApp { name, .. } && name@ == "Task"@)
}

pub fn is_task_type(t: &TypeExpr) -> (r: bool)
    ensures
        r == task_type(*t),
{
    match t {
        TypeExpr::Named(n) => str_is(n, "Task"),
        TypeExpr::EnumApp { name, .. } => str_is(name, "Task"),
        _ => false,
    }
}

/// The name an `internal` declaration is looked up under (`sleep_async` is `sleep`).
pub open spec fn canonical_name(name: Seq<char>) -> Seq<char> {
    if name == "sleep_async"@ { "sleep"@ } else { name }
}

fn canonical_builtin_name(name: &str) -> (r: String)
    ensures
        r@ == canonical_name(name@),
{
    let s = lit(name);
    if str_is(&s, "sleep_async") {
        lit("sleep")
    } else {
        s
    }
}

/// One of the builtins the host provides.
pub enum Builtin {
    Print(PrintBuiltin),
    PrintInt(PrintIntBuiltin),
    Itos(ItosBuiltin),
    IntArrayLen(IntArrayLenBuiltin),
    Clone(CloneBuiltin),
    PrintGen(PrintGenBuiltin),
    Concat(ConcatBuiltin),
    Input(InputBuiltin),
    Stoi(StoiBuiltin),
    RandInt(RandIntBuiltin),
    RandBigInt(RandBigIntBuiltin),
    Sleep(SleepBuiltin),
    WaitAllTasks(WaitAllTasksBuiltin),
    CreateCompletedTask(CreateCompletedTaskBuiltin),
    DictContains(DictContainsBuiltin),
    DictGet(DictGetBuiltin),
    DictInsert(DictInsertBuiltin),
    DictRemove(DictRemoveBuiltin),
    Fetch(FetchBuiltin),
}

impl BuiltinImpl for Builtin {
    open spec fn name_spec(&self) -> Seq<char> {
        match self {
            Builtin::Print(b) => b.name_spec(),
            Builtin::PrintInt(b) => b.name_spec(),
            Builtin::Itos(b) => b.name_spec(),
            Builtin::IntArrayLen(b) => b.name_spec(),
            Builtin::Clone(b) => b.name_spec(),
            Builtin::PrintGen(b) => b.name_spec(),
            Builtin::Concat(b) => b.name_spec(),
            Builtin::Input(b) => b.name_spec(),
            Builtin::Stoi(b) => b.name_spec(),
            Builtin::RandInt(b) => b.name_spec(),
            Builtin::RandBigInt(b) => b.name_spec(),
            Builtin::Sleep(b) => b.name_spec(),
            Builtin::WaitAllTasks(b) => b.name_spec(),
            Builtin::CreateCompletedTask(b) => b.name_spec(),
            Builtin::DictContains(b) => b.name_spec(),
            Builtin::DictGet(b) => b.name_spec(),
            Builtin::DictInsert(b) => b.name_spec(),
            Builtin::DictRemove(b) => b.name_spec(),
            Builtin::Fetch(b) => b.name_spec(),
        }
    }

    open spec fn decl_error(&self, params: Seq<Param>, return_type: Option<TypeExpr>) -> Option<Seq<char>> {
        match self {
            Builtin::Print(b) => b.decl_error(params, return_type),
            Builtin::PrintInt(b) => b.decl_error(params, return_type),
            Builtin::Itos(b) => b.decl_error(params, return_type),
            Builtin::IntArrayLen(b) => b.decl_error(params, return_type),
            Builtin::Clone(b) => b.decl_error(params, return_type),
            Builtin::PrintGen(b) => b.decl_error(params, return_type),
            Builtin::Concat(b) => b.decl_error(params, return_type),
            Builtin::Input(b) => b.decl_error(params, return_type),
            Builtin::Stoi(b) => b.decl_error(params, return_type),
            Builtin::RandInt(b) => b.decl_error(params, return_type),
            Builtin::RandBigInt(b) => b.decl_error(params, return_type),
            Builtin::Sleep(b) => b.decl_error(params, return_type),
            Builtin::WaitAllTasks(b) => b.decl_error(params, return_type),
            Builtin::CreateCompletedTask(b) => b.decl_error(params, return_type),
            Builtin::DictContains(b) => b.decl_error(params, return_type),
            Builtin::DictGet(b) => b.decl_error(params, return_type),
            Builtin::DictInsert(b) => b.decl_error(params, return_type),
            Builtin::DictRemove(b) => b.decl_error(params, return_type),
            Builtin::Fetch(b) => b.decl_error(params, return_type),
        }
    }

    fn name(&self) -> (r: &'static str) {
        match self {
            Builtin::Print(b) => b.name(),
            Builtin::PrintInt(b) => b.name(),
            Builtin::Itos(b) => b.name(),
            Builtin::IntArrayLen(b) => b.name(),
            Builtin::Clone(b) => b.name(),
            Builtin::PrintGen(b) => b.name(),
            Builtin::Concat(b) => b.name(),
            Builtin::Input(b) => b.name(),
            Builtin::Stoi(b) => b.name(),
            Builtin::RandInt(b) => b.name(),
            Builtin::RandBigInt(b) => b.name(),
            Builtin::Sleep(b) => b.name(),
            Builtin::WaitAllTasks(b) => b.name(),
            Builtin::CreateCompletedTask(b) => b.name(),
            Builtin::DictContains(b) => b.name(),
            Builtin::DictGet(b) => b.name(),
            Builtin::DictInsert(b) => b.name(),
            Builtin::DictRemove(b) => b.name(),
            Builtin::Fetch(b) => b.name(),
        }
    }

    fn validate_decl(&self, params: &[Param], return_type: &Option<TypeExpr>, name_span: Span) -> (r: Result<(), BuiltinError>) {
        match self {
            Builtin::Print(b) => b.validate_decl(params, return_type, name_span),
            Builtin::PrintInt(b) => b.validate_decl(params, return_type, name_span),
            Builtin::Itos(b) => b.validate_decl(params, return_type, name_span),
            Builtin::IntArrayLen(b) => b.validate_decl(params, return_type, name_span),
            Builtin::Clone(b) => b.validate_decl(params, return_type, name_span),
            Builtin::PrintGen(b) => b.validate_decl(params, return_type, name_span),
            Builtin::Concat(b) => b.validate_decl(params, return_type, name_span),
            Builtin::Input(b) => b.validate_decl(params, return_type, name_span),
            Builtin::Stoi(b) => b.validate_decl(params, return_type, name_span),
            Builtin::RandInt(b) => b.validate_decl(params, return_type, name_span),
            Builtin::RandBigInt(b) => b.validate_decl(params, return_type, name_span),
            Builtin::Sleep(b) => b.validate_decl(params, return_type, name_span),
            Builtin::WaitAllTasks(b) => b.validate_decl(params, return_type, name_span),
            Builtin::CreateCompletedTask(b) => b.validate_decl(params, return_type, name_span),
            Builtin::DictContains(b) => b.validate_decl(params, return_type, name_span),
            Builtin::DictGet(b) => b.validate_decl(params, return_type, name_span),
            Builtin::DictInsert(b) => b.validate_decl(params, return_type, name_span),
            Builtin::DictRemove(b) => b.validate_decl(params, return_type, name_span),
            Builtin::Fetch(b) => b.validate_decl(params, return_type, name_span),
        }
    }
}

/// The builtins by name; a name occurs at most once.
pub struct BuiltinRegistry {
    builtins: Vec<Builtin>,
}

/// Async `internal` declarations bind to the first of these builtins whose
/// signature they match.
pub open spec fn async_builtin_names() -> Seq<Seq<char>> {
    seq!["sleep"@, "wait_all_tasks_async"@, "create_completed_task_async"@]
}

impl BuiltinRegistry {
    /// The names of the registered builtins, in registration order.
    pub closed spec fn names(&self) -> Seq<Seq<char>> {
        Seq::new(self.builtins@.len(), |i: int| self.builtins@[i].name_spec())
    }

    /// Why the builtin at index `i` rejects a declaration (see `decl_error`).
    pub closed spec fn error_at(&self, i: int, params: Seq<Param>, return_type: Option<TypeExpr>) -> Option<Seq<char>> {
        self.builtins@[i].decl_error(params, return_type)
    }

    /// No name is registered twice.
    pub open spec fn wf(&self) -> bool {
        forall|i: int, j: int| 0 <= i < j < self.names().len() ==> self.names()[i] != self.names()[j]
    }

    /// The index of the builtin registered as `name`.
    pub open spec fn index_of(&self, name: Seq<char>) -> Option<int> {
        if exists|i: int| 0 <= i < self.names().len() && self.names()[i] == name {
            Some(choose|i: int| 0 <= i < self.names().len() && self.names()[i] == name)
        } else {
            None
        }
    }

    /// The builtin registered as `name`, if any.
    pub closed spec fn entry(&self, name: Seq<char>) -> Option<Builtin> {
        match self.index_of(name) {
            Some(i) => Some(self.builtins@[i]),
            None => None,
        }
    }

    /// Why the builtin registered as `name` rejects a declaration; `None` when it
    /// accepts it; no answer at all when nothing is registered under `name`.
    pub open spec fn rejection(&self, name: Seq<char>, params: Seq<Param>, return_type: Option<TypeExpr>)
        -> Option<Option<Seq<char>>> {
        match self.index_of(name) {
            Some(i) => Some(self.error_at(i, params, return_type)),
            None => None,
        }
    }

    pub fn new() -> (r: Self)
        ensures
            r.wf(),
            r.names() == Seq::<Seq<char>>::empty(),
    {
        let r = BuiltinRegistry { builtins: Vec::new() };
        assert(r.names() =~= Seq::<Seq<char>>::empty());
        r
    }

    fn find(&self, name: &String) -> (r: Option<usize>)
        requires
            self.wf(),
        ensures
            match r {
                Some(i) => self.index_of(name@) == Some(i as int) && i < self.names().len(),
                None => self.index_of(name@) is None,
            },
    {
        let mut i: usize = 0;
        while i < self.builtins.len()
            invariant
                i <= self.builtins@.len(),
                self.wf(),
                forall|j: int| 0 <= j < i ==> self.names()[j] != name@,
            decreases self.builtins@.len() - i,
        {
            let n = lit(self.builtins[i].name());
            if str_is(&n, name.as_str()) {
                assert(self.names()[i as int] == name@);
                return Some(i);
            }
            i += 1;
        }
        None
    }

    /// Registers `builtin` under its name, replacing a builtin of the same name.
    pub fn register(&mut self, builtin: Builtin)
        requires
            old(self).wf(),
        ensures
            final(self).wf(),
            final(self).index_of(builtin.name_spec()) is Some,
            forall|p: Seq<Param>, t: Option<TypeExpr>| #[trigger] final(self).rejection(builtin.name_spec(), p, t)
                == Some(builtin.decl_error(p, t)),
            forall|n: Seq<char>, p: Seq<Param>, t: Option<TypeExpr>| n != builtin.name_spec()
                ==> #[trigger] final(self).rejection(n, p, t) == old(self).rejection(n, p, t),
            final(self).entry(builtin.name_spec()) == Some(builtin),
            forall|n: Seq<char>| n != builtin.name_spec() ==> #[trigger] final(self).entry(n) == old(self).entry(n),
    {
        let name = lit(builtin.name());
        let ghost bn = builtin.name_spec();
        let ghost before = *self;
        let ghost b0 = builtin;
        let ghost k: int;
        match self.find(&name) {
            Some(i) => {
                self.builtins.set(i, builtin);
                proof {
                    k = i as int;
                    assert(self.names() =~= before.names().update(i as int, bn));
                }
            },
            None => {
                self.builtins.push(builtin);
                proof {
                    k = before.names().len() as int;
                    assert(self.names() =~= before.names().push(bn));
                }
            },
        }
        proof {
            assert(self.wf());
            assert(self.builtins@[k] == b0);
            assert(self.names()[k] == bn);
            assert(self.index_of(bn) == Some(k));
            assert forall|p: Seq<Param>, t: Option<TypeExpr>| #[trigger] self.rejection(bn, p, t) == Some(b0.decl_error(p, t)) by {
                assert(self.error_at(k, p, t) == b0.decl_error(p, t));
            }
            assert forall|n: Seq<char>| n != bn implies #[trigger] self.entry(n) == before.entry(n) by {
                if before.index_of(n) is Some {
                    let j = before.index_of(n)->Some_0;
                    assert(self.names()[j] == n);
                    let j2 = self.index_of(n)->Some_0;
                    assert(j2 == j);
                    assert(self.builtins@[j] == before.builtins@[j]);
                }
                if self.index_of(n) is Some {
                    let j2 = self.index_of(n)->Some_0;
                    assert(before.names()[j2] == n);
                }
            }
            assert forall|n: Seq<char>, p: Seq<Param>, t: Option<TypeExpr>| n != bn
                implies #[trigger] self.rejection(n, p, t) == before.rejection(n, p, t) by {
                if before.index_of(n) is Some {
                    let j = before.index_of(n)->Some_0;
                    assert(self.names()[j] == n);
                    let j2 = self.index_of(n)->Some_0;
                    assert(j2 == j);
                    assert(self.builtins@[j] == before.builtins@[j]);
                }
                if self.index_of(n) is Some {
                    let j2 = self.index_of(n)->Some_0;
                    assert(before.names()[j2] == n);
                }
            }
        }
    }

    /// The builtin registered as `name` (with `sleep_async` meaning `sleep`).
    pub fn get(&self, name: &str) -> (r: Option<&Builtin>)
        requires
            self.wf(),
        ensures
            match r {
                Some(b) => self.entry(canonical_name(name@)) == Some(*b),
                None => self.entry(canonical_name(name@)) is None,
            },
            match r {
                Some(b) => self.index_of(canonical_name(name@)) is Some
                    && b.name_spec() == canonical_name(name@)
                    && forall|p: Seq<Param>, t: Option<TypeExpr>|
                        #[trigger] b.decl_error(p, t) == self.rejection(canonical_name(name@), p, t)->Some_0,
                None => self.index_of(canonical_name(name@)) is None,
            },
    {
        let key = canonical_builtin_name(name);
        match self.find(&key) {
            Some(i) => Some(&self.builtins[i]),
            None => None,
        }
    }

    /// Checks a declaration against the builtin registered as `name`.
    fn validate_with(&self, name: &str, params: &[Param], return_type: &Option<TypeExpr>, name_span: Span)
        -> (r: Option<Result<(), BuiltinError>>)
        requires
            self.wf(),
        ensures
            match self.rejection(name@, params@, *return_type) {
                Some(err) => r matches Some(x) && decl_outcome(x, err, name_span),
                None => r is None,
            },
    {
        let key = lit(name);
        match self.find(&key) {
            Some(i) => Some(self.builtins[i].validate_decl(params, return_type, name_span)),
            None => None,
        }
    }

    /// The async builtin an `internal async func` declaration binds to: the first of
    /// `sleep`, `wait_all_tasks_async`, `create_completed_task_async` that is
    /// registered and accepts the signature.
    pub fn resolve_internal_async_callee(&self, params: &[Param], return_type: &Option<TypeExpr>, name_span: Span)
        -> (r: Result<&'static str, BuiltinError>)
        requires
            self.wf(),
        ensures
            match r {
                Ok(n) => exists|k: int| 0 <= k < 3 && n@ == async_builtin_names()[k]
                    && self.rejection(n@, params@, *return_type) == Some(None::<Seq<char>>)
                    && forall|j: int| 0 <= j < k ==> self.rejection(#[trigger] async_builtin_names()[j], params@, *return_type)
                        != Some(None::<Seq<char>>),
                Err(e) => e.span == Some(name_span)
                    && e.message@ == "internal `async func` must match built-in `sleep` or `wait_all_tasks_async` signatures"@
                    && forall|j: int| 0 <= j < 3 ==> self.rejection(#[trigger] async_builtin_names()[j], params@, *return_type)
                        != Some(None::<Seq<char>>),
            },
    {
        proof {
            reveal_strlit("sleep");
            reveal_strlit("wait_all_tasks_async");
            reveal_strlit("create_completed_task_async");
        }
        match self.validate_with("sleep", params, return_type, name_span) {
            Some(Ok(())) => {
                return Ok("sleep");
            },
            _ => {},
        }
        match self.validate_with("wait_all_tasks_async", params, return_type, name_span) {
            Some(Ok(())) => {
                return Ok("wait_all_tasks_async");
            },
            _ => {},
        }
        match self.validate_with("create_completed_task_async", params, return_type, name_span) {
            Some(Ok(())) => {
                return Ok("create_completed_task_async");
            },
            _ => {},
        }
        Err(BuiltinError::new(
            lit("internal `async func` must match built-in `sleep` or `wait_all_tasks_async` signatures"),
            Some(name_span),
        ))
    }

    /// Checks an `internal func` declaration named `name` against the builtins.
    pub fn validate_internal_func_decl(
        &self,
        name: &str,
        params: &[Param],
        return_type: &Option<TypeExpr>,
        name_span: Span,
        is_async: bool,
    ) -> (r: Result<(), BuiltinError>)
        requires
            self.wf(),
        ensures
            is_async ==> (r is Ok <==> exists|k: int| 0 <= k < 3
                && self.rejection(#[trigger] async_builtin_names()[k], params@, *return_type) == Some(None::<Seq<char>>)),
            !is_async && name@ == "sleep"@ ==> (r matches Err(e) && e.span == Some(name_span)
                && e.message@ == "internal `sleep` must be declared `internal async func sleep(...): Task;`"@),
            !is_async && name@ != "sleep"@ ==> match self.rejection(canonical_name(name@), params@, *return_type) {
                Some(err) => decl_outcome(r, err, name_span),
                None => r matches Err(e) && e.span == Some(name_span)
                    && e.message@ == "unsupported internal function `"@ + name@ + "` (no builtin registered)"@,
            },
    {
        if is_async {
            return match self.resolve_internal_async_callee(params, return_type, name_span) {
                Ok(_) => Ok(()),
                Err(e) => Err(e),
            };
        }
        let n = lit(name);
        if str_is(&n, "sleep") {
            return Err(BuiltinError::new(
                lit("internal `sleep` must be declared `internal async func sleep(...): Task;`"),
                Some(name_span),
            ));
        }
        let key = canonical_builtin_name(name);
        match self.find(&key) {
            Some(i) => self.builtins[i].validate_decl(params, return_type, name_span),
            None => {
                let mut msg: Vec<char> = Vec::new();
                push_str(&mut msg, "unsupported internal function `");
                push_str(&mut msg, name);
                push_str(&mut msg, "` (no builtin registered)");
                Err(BuiltinError::new(chars_to_string(msg.as_slice()), Some(name_span)))
            },
        }
    }
}

/// The builtins of the default registry, in registration order.
pub open spec fn default_builtins() -> Seq<Builtin> {
    seq![
        Builtin::Print(PrintBuiltin),
        Builtin::PrintInt(PrintIntBuiltin),
        Builtin::Itos(ItosBuiltin),
        Builtin::IntArrayLen(IntArrayLenBuiltin),
        Builtin::Clone(CloneBuiltin),
        Builtin::PrintGen(PrintGenBuiltin),
        Builtin::Concat(ConcatBuiltin),
        Builtin::Input(InputBuiltin),
        Builtin::Stoi(StoiBuiltin),
        Builtin::RandInt(RandIntBuiltin),
        Builtin::RandBigInt(RandBigIntBuiltin),
        Builtin::Sleep(SleepBuiltin),
        Builtin::WaitAllTasks(WaitAllTasksBuiltin),
        Builtin::CreateCompletedTask(CreateCompletedTaskBuiltin),
        Builtin::DictContains(DictContainsBuiltin),
        Builtin::DictGet(DictGetBuiltin),
        Builtin::DictInsert(DictInsertBuiltin),
        Builtin::DictRemove(DictRemoveBuiltin),
    ]
}

/// What a registry answers for `name` after registering `bs` in order into an
/// empty one: the builtin registered last under that name decides.
pub open spec fn replayed_rejection(bs: Seq<Builtin>, name: Seq<char>, params: Seq<Param>, return_type: Option<TypeExpr>)
    -> Option<Option<Seq<char>>>
    decreases bs.len(),
{
    if bs.len() == 0 {
        None
    } else if bs.last().name_spec() == name {
        Some(bs.last().decl_error(params, return_type))
    } else {
        replayed_rejection(bs.drop_last(), name, params, return_type)
    }
}

proof fn lemma_register_step(bs: Seq<Builtin>, k: int, before: BuiltinRegistry, after: BuiltinRegistry)
    requires
        0 <= k < bs.len(),
        forall|n: Seq<char>, p: Seq<Param>, t: Option<TypeExpr>| #[trigger] before.rejection(n, p, t)
            == replayed_rejection(bs.take(k), n, p, t),
        forall|p: Seq<Param>, t: Option<TypeExpr>| #[trigger] after.rejection(bs[k].name_spec(), p, t)
            == Some(bs[k].decl_error(p, t)),
        forall|n: Seq<char>, p: Seq<Param>, t: Option<TypeExpr>| n != bs[k].name_spec()
            ==> #[trigger] after.rejection(n, p, t) == before.rejection(n, p, t),
    ensures
        forall|n: Seq<char>, p: Seq<Param>, t: Option<TypeExpr>| #[trigger] after.rejection(n, p, t)
            == replayed_rejection(bs.take(k + 1), n, p, t),
{
    assert(bs.take(k + 1).drop_last() =~= bs.take(k));
    assert(bs.take(k + 1).last() == bs[k]);
    assert forall|n: Seq<char>, p: Seq<Param>, t: Option<TypeExpr>| #[trigger] after.rejection(n, p, t)
        == replayed_rejection(bs.take(k + 1), n, p, t) by {
        if n != bs[k].name_spec() {
            assert(before.rejection(n, p, t) == replayed_rejection(bs.take(k), n, p, t));
        }
    }
}

/// The registry with every builtin the host provides.
pub fn default_registry() -> (r: BuiltinRegistry)
    ensures
        r.wf(),
        forall|n: Seq<char>, p: Seq<Param>, t: Option<TypeExpr>| #[trigger] r.rejection(n, p, t)
            == replayed_rejection(default_builtins(), n, p, t),
{
    let mut reg = BuiltinRegistry::new();
    proof {
        assert(default_builtins().take(0) =~= Seq::<Builtin>::empty());
        assert forall|n: Seq<char>, p: Seq<Param>, t: Option<TypeExpr>| #[trigger] reg.rejection(n, p, t)
            == replayed_rejection(default_builtins().take(0), n, p, t) by {
            assert(reg.index_of(n) is None);
        }
    }
    let ghost before = reg;
    reg.register(Builtin::Print(PrintBuiltin));
    proof {
        lemma_register_step(default_builtins(), 0, before, reg);
    }
    let ghost before = reg;
    reg.register(Builtin::PrintInt(PrintIntBuiltin));
    proof {
        lemma_register_step(default_builtins(), 1, before, reg);
    }
    let ghost before = reg;
    reg.register(Builtin::Itos(ItosBuiltin));
    proof {
        lemma_register_step(default_builtins(), 2, before, reg);
    }
    let ghost before = reg;
    reg.register(Builtin::IntArrayLen(IntArrayLenBuiltin));
    proof {
        lemma_register_step(default_builtins(), 3, before, reg);
    }
    let ghost before = reg;
    reg.register(Builtin::Clone(CloneBuiltin));
    proof {
        lemma_register_step(default_builtins(), 4, before, reg);
    }
    let ghost before = reg;
    reg.register(Builtin::PrintGen(PrintGenBuiltin));
    proof {
        lemma_register_step(default_builtins(), 5, before, reg);
    }
    let ghost before = reg;
    reg.register(Builtin::Concat(ConcatBuiltin));
    proof {
        lemma_register_step(default_builtins(), 6, before, reg);
    }
    let ghost before = reg;
    reg.register(Builtin::Input(InputBuiltin));
    proof {
        lemma_register_step(default_builtins(), 7, before, reg);
    }
    let ghost before = reg;
    reg.register(Builtin::Stoi(StoiBuiltin));
    proof {
        lemma_register_step(default_builtins(), 8, before, reg);
    }
    let ghost before = reg;
    reg.register(Builtin::RandInt(RandIntBuiltin));
    proof {
        lemma_register_step(default_builtins(), 9, before, reg);
    }
    let ghost before = reg;
    reg.register(Builtin::RandBigInt(RandBigIntBuiltin));
    proof {
        lemma_register_step(default_builtins(), 10, before, reg);
    }
    let ghost before = reg;
    reg.register(Builtin::Sleep(SleepBuiltin));
    proof {
        lemma_register_step(default_builtins(), 11, before, reg);
    }
    let ghost before = reg;
    reg.register(Builtin::WaitAllTasks(WaitAllTasksBuiltin));
    proof {
        lemma_register_step(default_builtins(), 12, before, reg);
    }
    let ghost before = reg;
    reg.register(Builtin::CreateCompletedTask(CreateCompletedTaskBuiltin));
    proof {
        lemma_register_step(default_builtins(), 13, before, reg);
    }
    let ghost before = reg;
    reg.register(Builtin::DictContains(DictContainsBuiltin));
    proof {
        lemma_register_step(default_builtins(), 14, before, reg);
    }
    let ghost before = reg;
    reg.register(Builtin::DictGet(DictGetBuiltin));
    proof {
        lemma_register_step(default_builtins(), 15, before, reg);
    }
    let ghost before = reg;
    reg.register(Builtin::DictInsert(DictInsertBuiltin));
    proof {
        lemma_register_step(default_builtins(), 16, before, reg);
    }
    let ghost before = reg;
    reg.register(Builtin::DictRemove(DictRemoveBuiltin));
    proof {
        lemma_register_step(default_builtins(), 17, before, reg);
    }
    assert(default_builtins().take(18) =~= default_builtins());
    reg
}

} // verus!
