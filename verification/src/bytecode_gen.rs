//! Building blocks of the AST-to-bytecode generator: jump labels, variable
//! slots and scopes, call-argument resolution and pattern destructuring.

use vstd::prelude::*;
use crate::ast::{AstNode, BinaryOp, CallArg, Param, Pattern, PatternElem, StructPatternField, TypeExpr};
use crate::builtins::{async_builtin_names, canonical_name, BuiltinRegistry};
use crate::bytecode::Instr;
use crate::error::{located, render_located, Span};
use crate::table::{entry_value, find_entry, lemma_entry_index};
use crate::text::{chars_to_string, lit, push_decimal, push_str, str_is, decimal};

verus! {

#[derive(Debug)]
pub struct CompileError {
    pub message: String,
    pub span: Option<Span>,
}

impl CompileError {
    pub fn new(message: String, span: Option<Span>) -> (e: Self)
        ensures
            e.message@ == message@,
            e.span == span,
    {
        CompileError { message, span }
    }

    /// `<path>:<line>:<column>: bytecode error: <message>`, or `<path>: bytecode error: <message>`
    /// when the error has no location.
    pub fn format_with_file(&self, path: &str) -> (r: String)
        ensures
            self.span matches Some(s) ==> r@ == located(path@, s, ": bytecode error: "@, self.message@),
            self.span is None ==> r@ == path@ + ": bytecode error: "@ + self.message@,
    {
        match self.span {
            Some(s) => render_located(path, s, ": bytecode error: ", &self.message),
            None => {
                let mut out: Vec<char> = Vec::new();
                push_str(&mut out, path);
                push_str(&mut out, ": bytecode error: ");
                push_str(&mut out, self.message.as_str());
                assert(out@ =~= path@ + ": bytecode error: "@ + self.message@);
                chars_to_string(out.as_slice())
            },
        }
    }
}

/// The registry's verdict on an `internal func` declaration, as a compile error.
pub open spec fn compile_decl_outcome(r: Result<(), CompileError>, error: Option<Seq<char>>, span: Span) -> bool {
    match error {
        None => r is Ok,
        Some(m) => r matches Err(e) && e.message@ == m && e.span == Some(span),
    }
}

/// Checks an `internal func` declaration against the builtins, reporting a
/// rejection as a compile error with the same message and location.
pub fn validate_internal_func_decl(
    builtins: &BuiltinRegistry,
    name: &str,
    params: &[Param],
    return_type: &Option<TypeExpr>,
    name_span: Span,
    is_async: bool,
) -> (r: Result<(), CompileError>)
    requires
        builtins.wf(),
    ensures
        is_async ==> (r is Ok <==> exists|k: int| 0 <= k < 3
            && builtins.rejection(#[trigger] async_builtin_names()[k], params@, *return_type) == Some(None::<Seq<char>>)),
        !is_async && name@ == "sleep"@ ==> (r matches Err(e) && e.span == Some(name_span)
            && e.message@ == "internal `sleep` must be declared `internal async func sleep(...): Task;`"@),
        !is_async && name@ != "sleep"@ ==> match builtins.rejection(canonical_name(name@), params@, *return_type) {
            Some(err) => compile_decl_outcome(r, err, name_span),
            None => r matches Err(e) && e.span == Some(name_span)
                && e.message@ == "unsupported internal function `"@ + name@ + "` (no builtin registered)"@,
        },
{
    match builtins.validate_internal_func_decl(name, params, return_type, name_span, is_async) {
        Ok(()) => Ok(()),
        Err(e) => Err(CompileError::new(e.message, e.span)),
    }
}

/// A jump target, created before its position is known.
#[derive(Clone, Copy, Debug, PartialEq, Eq, Hash)]
pub struct LabelId(pub usize);

/// Jump labels of one function body: where each label was placed, and which
/// jump instructions wait for it.
pub struct Labeler {
    next: usize,
    positions: Vec<Option<usize>>,
    /// The jumps waiting for a label, as `(label, instruction index)`, in the order
    /// they were recorded.
    patches: Vec<(usize, usize)>,
}

/// The jump `i` with its target replaced by `target`.
pub open spec fn retarget(i: Instr, target: usize) -> Instr {
    match i {
        Instr::Jump { .. } => Instr::Jump { target },
        Instr::JumpIfFalse { .. } => Instr::JumpIfFalse { target },
        Instr::JumpIfTrue { .. } => Instr::JumpIfTrue { target },
        _ => i,
    }
}

/// The instruction indices waiting for label `l` among the recorded `(label, index)`
/// pairs `ps`, in order.
pub open spec fn sites_for(ps: Seq<(usize, usize)>, l: int) -> Seq<usize>
    decreases ps.len(),
{
    if ps.len() == 0 {
        Seq::empty()
    } else {
        let w = sites_for(ps.drop_last(), l);
        if ps.last().0 == l { w.push(ps.last().1) } else { w }
    }
}

/// `code` after pointing, in the order recorded, each jump of `ps` that waits for a
/// label placed in `placed` at that label's position.
pub open spec fn patched(code: Seq<Instr>, placed: Seq<Option<usize>>, ps: Seq<(usize, usize)>) -> Seq<Instr>
    decreases ps.len(),
{
    if ps.len() == 0 {
        code
    } else {
        let c = patched(code, placed, ps.drop_last());
        let (l, k) = ps.last();
        if l < placed.len() && placed[l as int] is Some && k < c.len() {
            c.update(k as int, retarget(c[k as int], placed[l as int]->0))
        } else {
            c
        }
    }
}

/// Every recorded jump that waits for a placed label lies below `n`.
pub open spec fn placed_sites_below(placed: Seq<Option<usize>>, ps: Seq<(usize, usize)>, n: nat) -> bool {
    forall|j: int| 0 <= j < ps.len() && (#[trigger] ps[j]).0 < placed.len() && placed[ps[j].0 as int] is Some
        ==> ps[j].1 < n
}

proof fn lemma_patched_len(code: Seq<Instr>, placed: Seq<Option<usize>>, ps: Seq<(usize, usize)>)
    ensures
        patched(code, placed, ps).len() == code.len(),
    decreases ps.len(),
{
    if ps.len() > 0 {
        lemma_patched_len(code, placed, ps.drop_last());
    }
}

impl Labeler {
    /// The number of labels created so far.
    pub closed spec fn label_count(&self) -> nat {
        self.next as nat
    }

    /// Where each label was placed, if it was.
    pub closed spec fn placed(&self) -> Seq<Option<usize>> {
        self.positions@
    }

    /// The recorded `(label, instruction index)` pairs, in order.
    pub closed spec fn pending(&self) -> Seq<(usize, usize)> {
        self.patches@
    }

    /// The instruction indices waiting for label `l`, in order.
    pub open spec fn waiting(&self, l: int) -> Seq<usize> {
        sites_for(self.pending(), l)
    }

    /// One position entry per label.
    pub closed spec fn wf(&self) -> bool {
        self.positions@.len() == self.next
    }

    /// Every waiting instruction index is below `n`.
    pub open spec fn sites_below(&self, n: nat) -> bool {
        forall|j: int| 0 <= j < self.pending().len() ==> (#[trigger] self.pending()[j]).1 < n
    }

    proof fn lemma_placed_len(&self)
        requires
            self.wf(),
        ensures
            self.placed().len() == self.label_count(),
    {
    }

    pub fn new() -> (r: Self)
        ensures
            r.wf(),
            r.label_count() == 0,
            r.pending() == Seq::<(usize, usize)>::empty(),
    {
        Labeler { next: 0, positions: Vec::new(), patches: Vec::new() }
    }

    /// A fresh label, not yet placed.
    pub fn new_label(&mut self) -> (l: LabelId)
        requires
            old(self).wf(),
            old(self).label_count() < usize::MAX,
        ensures
            final(self).wf(),
            l.0 == old(self).label_count(),
            final(self).label_count() == old(self).label_count() + 1,
            final(self).placed() == old(self).placed().push(None),
            final(self).pending() == old(self).pending(),
    {
        let id = self.next;
        self.next += 1;
        self.positions.push(None);
        LabelId(id)
    }

    /// Places `label` at instruction index `code_len`.
    pub fn mark(&mut self, label: LabelId, code_len: usize)
        requires
            old(self).wf(),
            label.0 < old(self).label_count(),
        ensures
            final(self).wf(),
            final(self).label_count() == old(self).label_count(),
            final(self).placed() == old(self).placed().update(label.0 as int, Some(code_len)),
            final(self).pending() == old(self).pending(),
    {
        self.positions.set(label.0, Some(code_len));
    }

    /// Records that the jump at `patch_at_instr` waits for `label`.
    pub fn add_patch(&mut self, label: LabelId, patch_at_instr: usize)
        ensures
            final(self).wf() == old(self).wf(),
            final(self).label_count() == old(self).label_count(),
            final(self).placed() == old(self).placed(),
            final(self).pending() == old(self).pending().push((label.0, patch_at_instr)),
    {
        self.patches.push((label.0, patch_at_instr));
    }
}


impl Labeler {
    /// Points every jump that waits for a placed label at that label's position, in the
    /// order the jumps were recorded.
    pub fn patch_all(&self, code: &mut Vec<Instr>)
        requires
            placed_sites_below(self.placed(), self.pending(), old(code)@.len()),
        ensures
            final(code)@ == patched(old(code)@, self.placed(), self.pending()),
    {
        let ghost old_code = code@;
        let mut j: usize = 0;
        assert(self.pending().take(0) =~= Seq::<(usize, usize)>::empty());
        while j < self.patches.len()
            invariant
                j <= self.pending().len(),
                placed_sites_below(self.placed(), self.pending(), old_code.len()),
                code@ == patched(old_code, self.placed(), self.pending().take(j as int)),
                code@.len() == old_code.len(),
            decreases self.pending().len() - j,
        {
            let (l, idx) = self.patches[j];
            proof {
                assert(self.pending().take(j + 1).drop_last() =~= self.pending().take(j as int));
                assert(self.pending().take(j + 1).last() == (l, idx));
                lemma_patched_len(old_code, self.placed(), self.pending().take(j as int));
            }
            if l < self.positions.len() {
                if let Some(pos) = self.positions[l] {
                    assert(self.pending()[j as int] == (l, idx));
                    let replaced = match &code[idx] {
                        Instr::Jump { .. } => Some(Instr::Jump { target: pos }),
                        Instr::JumpIfFalse { .. } => Some(Instr::JumpIfFalse { target: pos }),
                        Instr::JumpIfTrue { .. } => Some(Instr::JumpIfTrue { target: pos }),
                        _ => None,
                    };
                    let ghost before = code@;
                    if let Some(instr) = replaced {
                        code.set(idx, instr);
                    } else {
                        assert(before.update(idx as int, retarget(before[idx as int], pos)) =~= before);
                    }
                }
            }
            j += 1;
        }
        assert(self.pending().take(self.pending().len() as int) =~= self.pending());
    }
}


/// Where a variable lives: a local slot of the function being compiled, or a global slot.
#[derive(Clone, Copy, Debug, PartialEq, Eq)]
pub enum VarSlotKind {
    Local,
    Global,
}

#[derive(Clone, Copy, Debug, PartialEq, Eq)]
pub struct VarSlot {
    pub kind: VarSlotKind,
    pub slot: u32,
}

/// One declared parameter of a callee, as call-argument resolution sees it.
#[derive(Clone)]
pub struct CallParamSpec {
    pub name: String,
    pub is_params: bool,
    pub default_value: Option<AstNode>,
}

/// The slot a name resolves to in the scopes `ss`, the innermost scope first.
pub open spec fn scopes_lookup(ss: Seq<Seq<(String, u32)>>, name: Seq<char>) -> Option<u32>
    decreases ss.len(),
{
    if ss.len() == 0 {
        None
    } else {
        match entry_value(ss.last(), name) {
            Some(slot) => Some(slot),
            None => scopes_lookup(ss.drop_last(), name),
        }
    }
}

/// Where `name` resolves: a local slot of the scopes `ss`, else a global slot of `gs`.
pub open spec fn var_slot_of(ss: Seq<Seq<(String, u32)>>, gs: Seq<(String, u32)>, name: Seq<char>) -> Option<VarSlot> {
    match scopes_lookup(ss, name) {
        Some(slot) => Some(VarSlot { kind: VarSlotKind::Local, slot }),
        None => match entry_value(gs, name) {
            Some(slot) => Some(VarSlot { kind: VarSlotKind::Global, slot }),
            None => None,
        },
    }
}

/// The state of code generation for one function body.
pub struct FnGen<'a> {
    globals: &'a Vec<(String, u32)>,
    call_specs: &'a Vec<(String, Vec<CallParamSpec>)>,
    /// Callees that return a `Task` without running at the call site.
    async_callees: &'a Vec<String>,
    /// Deferred-task target of each internal async builtin (`asyncSleep` -> `sleep`).
    internal_async_vm_callee: &'a Vec<(String, String)>,
    scopes: Vec<Vec<(String, u32)>>,
    next_local_slot: u32,
    code: Vec<Instr>,
    labeler: Labeler,
}

/// `i` invokes `callee` with `argc` arguments: a deferred task for an async callee (under its
/// deferred-task target, if it has one), a call otherwise.
pub open spec fn invoke_instr(i: Instr, is_async: bool, target: Option<String>, callee: Seq<char>, argc: usize, span: Span) -> bool {
    if is_async {
        i matches Instr::MakeDeferredTask { func, argc: a, span: s } && a == argc && s == span
            && func@ == match target { Some(t) => t@, None => callee }
    } else {
        i matches Instr::Call { callee: c, argc: a, span: s } && c@ == callee && a == argc && s == span
    }
}

impl<'a> FnGen<'a> {
    pub closed spec fn globals_table(&self) -> Seq<(String, u32)> {
        self.globals@
    }

    pub closed spec fn call_spec_table(&self) -> Seq<(String, Vec<CallParamSpec>)> {
        self.call_specs@
    }

    pub closed spec fn async_callee_names(&self) -> Seq<String> {
        self.async_callees@
    }

    pub closed spec fn vm_callee_table(&self) -> Seq<(String, String)> {
        self.internal_async_vm_callee@
    }

    /// The scopes, outermost first, each a table of local names and slots.
    pub closed spec fn scope_tables(&self) -> Seq<Seq<(String, u32)>> {
        self.scopes@.map_values(|t: Vec<(String, u32)>| t@)
    }

    pub closed spec fn next_slot(&self) -> nat {
        self.next_local_slot as nat
    }

    pub closed spec fn emitted(&self) -> Seq<Instr> {
        self.code@
    }

    pub closed spec fn labels(&self) -> Labeler {
        self.labeler
    }

    /// The labels' tables are consistent and every waiting jump is already emitted.
    pub open spec fn wf(&self) -> bool {
        self.labels().wf() && self.labels().sites_below(self.emitted().len())
    }

    /// The generator's tables and counters are those of `other`.
    pub open spec fn same_tables(&self, other: &Self) -> bool {
        &&& self.globals_table() == other.globals_table()
        &&& self.call_spec_table() == other.call_spec_table()
        &&& self.async_callee_names() == other.async_callee_names()
        &&& self.vm_callee_table() == other.vm_callee_table()
        &&& self.labels() == other.labels()
    }

    pub fn new(
        globals: &'a Vec<(String, u32)>,
        call_specs: &'a Vec<(String, Vec<CallParamSpec>)>,
        async_callees: &'a Vec<String>,
        internal_async_vm_callee: &'a Vec<(String, String)>,
    ) -> (g: Self)
        ensures
            g.wf(),
            g.globals_table() == globals@,
            g.call_spec_table() == call_specs@,
            g.async_callee_names() == async_callees@,
            g.vm_callee_table() == internal_async_vm_callee@,
            g.scope_tables().len() == 0,
            g.next_slot() == 0,
            g.emitted().len() == 0,
            g.labels().label_count() == 0,
    {
        let g = FnGen {
            globals,
            call_specs,
            async_callees,
            internal_async_vm_callee,
            scopes: Vec::new(),
            next_local_slot: 0,
            code: Vec::new(),
            labeler: Labeler::new(),
        };
        assert(g.scope_tables() =~= Seq::empty());
        g
    }

    /// The instructions emitted so far.
    pub fn code(&self) -> (r: &Vec<Instr>)
        ensures
            r@ == self.emitted(),
    {
        &self.code
    }

    /// The number of local slots allocated so far.
    pub fn local_count(&self) -> (r: u32)
        ensures
            r == self.next_slot(),
    {
        self.next_local_slot
    }

    /// Appends `instr`.
    pub fn emit(&mut self, instr: Instr)
        requires
            old(self).wf(),
        ensures
            final(self).wf(),
            final(self).same_tables(old(self)),
            final(self).scope_tables() == old(self).scope_tables(),
            final(self).next_slot() == old(self).next_slot(),
            final(self).emitted() == old(self).emitted().push(instr),
    {
        self.code.push(instr);
        proof {
            let n = old(self).code@.len();
            assert(self.labeler.sites_below(n as nat));
            assert forall|j: int| 0 <= j < self.labeler.pending().len()
                implies (#[trigger] self.labeler.pending()[j]).1 < self.code@.len() by {
                assert(self.labeler.pending()[j].1 < n);
            }
        }
    }

    /// Emits `callee` applied to the `argc` values on the stack: a deferred task when
    /// the callee is async, a direct call otherwise.
    pub fn emit_function_invoke(&mut self, callee: &str, argc: usize, span: Span)
        requires
            old(self).wf(),
        ensures
            final(self).wf(),
            final(self).same_tables(old(self)),
            final(self).scope_tables() == old(self).scope_tables(),
            final(self).next_slot() == old(self).next_slot(),
            final(self).emitted().len() == old(self).emitted().len() + 1,
            final(self).emitted().take(old(self).emitted().len() as int) == old(self).emitted(),
            invoke_instr(
                final(self).emitted().last(),
                exists|i: int| 0 <= i < old(self).async_callee_names().len()
                    && (#[trigger] old(self).async_callee_names()[i])@ == callee@,
                entry_value(old(self).vm_callee_table(), callee@),
                callee@,
                argc,
                span,
            ),
    {
        let mut is_async = false;
        let mut i: usize = 0;
        while i < self.async_callees.len()
            invariant_except_break
                !is_async,
                forall|j: int| 0 <= j < i ==> (#[trigger] self.async_callees@[j])@ != callee@,
            invariant
                i <= self.async_callees@.len(),
            ensures
                is_async <==> exists|j: int| 0 <= j < self.async_callees@.len()
                    && (#[trigger] self.async_callees@[j])@ == callee@,
            decreases self.async_callees@.len() - i,
        {
            if str_is(&self.async_callees[i], callee) {
                is_async = true;
                break;
            }
            i += 1;
        }
        let instr = if is_async {
            let func = match find_entry(self.internal_async_vm_callee, callee) {
                Some(k) => {
                    proof { lemma_entry_index(self.internal_async_vm_callee@, callee@); }
                    self.internal_async_vm_callee[k].1.clone()
                },
                None => lit(callee),
            };
            Instr::MakeDeferredTask { func, argc, span }
        } else {
            Instr::Call { callee: lit(callee), argc, span }
        };
        self.emit(instr);
    }

    /// Opens a new innermost scope.
    pub fn push_scope(&mut self)
        requires
            old(self).wf(),
        ensures
            final(self).wf(),
            final(self).same_tables(old(self)),
            final(self).scope_tables() == old(self).scope_tables().push(Seq::empty()),
            final(self).next_slot() == old(self).next_slot(),
            final(self).emitted() == old(self).emitted(),
    {
        self.scopes.push(Vec::new());
        assert(self.scope_tables() =~= old(self).scope_tables().push(Seq::empty()));
    }

    /// Closes the innermost scope, if there is one.
    pub fn pop_scope(&mut self)
        requires
            old(self).wf(),
        ensures
            final(self).wf(),
            final(self).same_tables(old(self)),
            old(self).scope_tables().len() > 0 ==> final(self).scope_tables() == old(self).scope_tables().drop_last(),
            old(self).scope_tables().len() == 0 ==> final(self).scope_tables() == old(self).scope_tables(),
            final(self).next_slot() == old(self).next_slot(),
            final(self).emitted() == old(self).emitted(),
    {
        self.scopes.pop();
        assert(self.scope_tables() =~= if old(self).scope_tables().len() > 0 {
            old(self).scope_tables().drop_last()
        } else {
            old(self).scope_tables()
        });
    }

    /// A fresh local slot.
    pub fn alloc_slot(&mut self) -> (s: u32)
        requires
            old(self).wf(),
            old(self).next_slot() < u32::MAX,
        ensures
            final(self).wf(),
            final(self).same_tables(old(self)),
            s == old(self).next_slot(),
            final(self).next_slot() == old(self).next_slot() + 1,
            final(self).scope_tables() == old(self).scope_tables(),
            final(self).emitted() == old(self).emitted(),
    {
        let s = self.next_local_slot;
        self.next_local_slot += 1;
        s
    }

    /// Where `name` lives: the innermost local binding, else a global.
    pub fn resolve_var(&self, name: &str) -> (r: Option<VarSlot>)
        ensures
            r == var_slot_of(self.scope_tables(), self.globals_table(), name@),
    {
        let ghost ss = self.scope_tables();
        let mut i: usize = self.scopes.len();
        assert(ss.take(ss.len() as int) =~= ss);
        while i > 0
            invariant
                i <= self.scopes@.len(),
                ss == self.scope_tables(),
                scopes_lookup(ss, name@) == scopes_lookup(ss.take(i as int), name@),
            decreases i,
        {
            assert(ss.take(i as int).drop_last() =~= ss.take(i - 1));
            assert(ss.take(i as int).last() == self.scopes@[i - 1]@);
            match find_entry(&self.scopes[i - 1], name) {
                Some(k) => {
                    proof { lemma_entry_index(self.scopes@[i - 1]@, name@); }
                    return Some(VarSlot { kind: VarSlotKind::Local, slot: self.scopes[i - 1][k].1 });
                },
                None => {},
            }
            i -= 1;
        }
        assert(ss.take(0) =~= Seq::<Seq<(String, u32)>>::empty());
        match find_entry(self.globals, name) {
            Some(k) => {
                proof { lemma_entry_index(self.globals@, name@); }
                Some(VarSlot { kind: VarSlotKind::Global, slot: self.globals[k].1 })
            },
            None => None,
        }
    }
}

/// The names `p` binds, in the order a declaration visits them.
pub open spec fn pattern_names(p: Pattern) -> Seq<String>
    decreases p, 0nat,
{
    match p {
        Pattern::Binding { name, .. } => seq![name],
        Pattern::Tuple { elements, .. } => elem_names(elements@),
        Pattern::Array { elements, .. } => elem_names(elements@),
        Pattern::Struct { fields, .. } => field_names(fields@),
        Pattern::EnumVariant { payloads, .. } => payload_names(payloads@),
        _ => Seq::empty(),
    }
}

pub open spec fn elem_names(es: Seq<PatternElem>) -> Seq<String>
    decreases es, 1nat,
{
    if es.len() == 0 {
        Seq::empty()
    } else {
        elem_names(es.drop_last()) + match es.last() {
            PatternElem::Pattern(q) => pattern_names(q),
            PatternElem::Rest(_) => Seq::empty(),
        }
    }
}

pub open spec fn field_names(fs: Seq<StructPatternField>) -> Seq<String>
    decreases fs, 1nat,
{
    if fs.len() == 0 {
        Seq::empty()
    } else {
        field_names(fs.drop_last()) + pattern_names(fs.last().pattern)
    }
}

pub open spec fn payload_names(ps: Seq<Pattern>) -> Seq<String>
    decreases ps, 1nat,
{
    if ps.len() == 0 {
        Seq::empty()
    } else {
        payload_names(ps.drop_last()) + pattern_names(ps.last())
    }
}

/// `names` paired with consecutive slots from `start`.
pub open spec fn numbered(names: Seq<String>, start: nat) -> Seq<(String, u32)> {
    Seq::new(names.len(), |i: int| (names[i], (start + i) as u32))
}

impl<'a> FnGen<'a> {
    /// Declares each name `p` binds in the innermost scope, each in a fresh slot.
    pub fn declare_pattern(&mut self, pattern: &Pattern) -> (r: Result<(), CompileError>)
        requires
            old(self).wf(),
            old(self).scope_tables().len() > 0,
            old(self).next_slot() + pattern_names(*pattern).len() <= u32::MAX,
        ensures
            r is Ok,
            final(self).wf(),
            final(self).same_tables(old(self)),
            final(self).emitted() == old(self).emitted(),
            final(self).next_slot() == old(self).next_slot() + pattern_names(*pattern).len(),
            final(self).scope_tables() == old(self).scope_tables().drop_last().push(
                old(self).scope_tables().last() + numbered(pattern_names(*pattern), old(self).next_slot())),
        decreases pattern, 0nat,
    {
        let ghost names = pattern_names(*pattern);
        match pattern {
            Pattern::Wildcard { .. } => {
                assert(self.scope_tables().last() + numbered(names, self.next_slot()) =~= self.scope_tables().last());
                assert(self.scope_tables().drop_last().push(self.scope_tables().last()) =~= self.scope_tables());
                Ok(())
            },
            Pattern::IntLiteral { .. } | Pattern::StringLiteral { .. } | Pattern::BoolLiteral { .. } => {
                assert(self.scope_tables().last() + numbered(names, self.next_slot()) =~= self.scope_tables().last());
                assert(self.scope_tables().drop_last().push(self.scope_tables().last()) =~= self.scope_tables());
                Ok(())
            },
            Pattern::Binding { name, .. } => {
                let slot = self.alloc_slot();
                self.insert_local(name.clone(), slot);
                assert(numbered(names, old(self).next_slot()) =~= seq![(*name, slot)]);
                assert(old(self).scope_tables().last().push((*name, slot))
                    =~= old(self).scope_tables().last() + numbered(names, old(self).next_slot()));
                Ok(())
            },
            Pattern::Tuple { elements, .. } => {
                self.declare_elems(elements);
                Ok(())
            },
            Pattern::Array { elements, .. } => {
                self.declare_elems(elements);
                Ok(())
            },
            Pattern::Struct { fields, .. } => {
                let mut i: usize = 0;
                assert(fields@.take(0) =~= Seq::<StructPatternField>::empty());
                while i < fields.len()
                    invariant
                        *pattern matches Pattern::Struct { fields: fs, .. } && fs == *fields,
                        names == field_names(fields@),
                        i <= fields@.len(),
                        self.wf(),
                        self.same_tables(old(self)),
                        self.emitted() == old(self).emitted(),
                        old(self).next_slot() + names.len() <= u32::MAX,
                        old(self).scope_tables().len() > 0,
                        self.next_slot() == old(self).next_slot() + field_names(fields@.take(i as int)).len(),
                        self.scope_tables() == old(self).scope_tables().drop_last().push(
                            old(self).scope_tables().last() + numbered(field_names(fields@.take(i as int)), old(self).next_slot())),
                    decreases fields@.len() - i,
                {
                    assert(fields@.take(i + 1).drop_last() =~= fields@.take(i as int));
                    proof { lemma_field_names_prefix(fields@, i as int + 1); }
                    proof {
                        assert(decreases_to!(*pattern => pattern->fields));
                        assert(decreases_to!(*fields => fields@[i as int]));
                    }
                    let ghost mid = self.scope_tables();
                    proof { lemma_field_names_mono(fields@, i as int + 1); }
                    match self.declare_pattern(&fields[i].pattern) {
                        Ok(()) => {},
                        Err(e) => { return Err(e); },
                    }
                    proof {
                        let prev = field_names(fields@.take(i as int));
                        assert(mid.drop_last() =~= old(self).scope_tables().drop_last());
                        assert(self.scope_tables().last() =~= old(self).scope_tables().last()
                            + (numbered(prev, old(self).next_slot()) + numbered(pattern_names(fields@[i as int].pattern), old(self).next_slot() + prev.len())));
                        let cur = pattern_names(fields@[i as int].pattern);
                        assert(field_names(fields@.take(i + 1)) == prev + cur);
                        assert(numbered(prev + cur, old(self).next_slot())
                            =~= numbered(prev, old(self).next_slot()) + numbered(cur, old(self).next_slot() + prev.len()));
                        assert(self.scope_tables() =~= old(self).scope_tables().drop_last().push(
                            old(self).scope_tables().last() + numbered(field_names(fields@.take(i + 1)), old(self).next_slot())));
                    }
                    i += 1;
                }
                assert(fields@.take(fields@.len() as int) =~= fields@);
                Ok(())
            },
            Pattern::EnumVariant { payloads, .. } => {
                let mut i: usize = 0;
                assert(payloads@.take(0) =~= Seq::<Pattern>::empty());
                while i < payloads.len()
                    invariant
                        *pattern matches Pattern::EnumVariant { payloads: ps, .. } && ps == *payloads,
                        names == payload_names(payloads@),
                        i <= payloads@.len(),
                        self.wf(),
                        self.same_tables(old(self)),
                        self.emitted() == old(self).emitted(),
                        old(self).next_slot() + names.len() <= u32::MAX,
                        old(self).scope_tables().len() > 0,
                        self.next_slot() == old(self).next_slot() + payload_names(payloads@.take(i as int)).len(),
                        self.scope_tables() == old(self).scope_tables().drop_last().push(
                            old(self).scope_tables().last() + numbered(payload_names(payloads@.take(i as int)), old(self).next_slot())),
                    decreases payloads@.len() - i,
                {
                    assert(payloads@.take(i + 1).drop_last() =~= payloads@.take(i as int));
                    proof { lemma_payload_names_prefix(payloads@, i as int + 1); }
                    proof {
                        assert(decreases_to!(*pattern => pattern->payloads));
                        assert(decreases_to!(*payloads => payloads@[i as int]));
                    }
                    let ghost mid = self.scope_tables();
                    proof { lemma_payload_names_mono(payloads@, i as int + 1); }
                    match self.declare_pattern(&payloads[i]) {
                        Ok(()) => {},
                        Err(e) => { return Err(e); },
                    }
                    proof {
                        let prev = payload_names(payloads@.take(i as int));
                        assert(mid.drop_last() =~= old(self).scope_tables().drop_last());
                        assert(self.scope_tables().last() =~= old(self).scope_tables().last()
                            + (numbered(prev, old(self).next_slot()) + numbered(pattern_names(payloads@[i as int]), old(self).next_slot() + prev.len())));
                        let cur = pattern_names(payloads@[i as int]);
                        assert(payload_names(payloads@.take(i + 1)) == prev + cur);
                        assert(numbered(prev + cur, old(self).next_slot())
                            =~= numbered(prev, old(self).next_slot()) + numbered(cur, old(self).next_slot() + prev.len()));
                        assert(self.scope_tables() =~= old(self).scope_tables().drop_last().push(
                            old(self).scope_tables().last() + numbered(payload_names(payloads@.take(i + 1)), old(self).next_slot())));
                    }
                    i += 1;
                }
                assert(payloads@.take(payloads@.len() as int) =~= payloads@);
                Ok(())
            },
        }
    }

    /// Declares the names bound by the elements of a tuple or array pattern, `..` binding none.
    fn declare_elems(&mut self, elements: &Vec<PatternElem>)
        requires
            old(self).wf(),
            old(self).scope_tables().len() > 0,
            old(self).next_slot() + elem_names(elements@).len() <= u32::MAX,
        ensures
            final(self).wf(),
            final(self).same_tables(old(self)),
            final(self).emitted() == old(self).emitted(),
            final(self).next_slot() == old(self).next_slot() + elem_names(elements@).len(),
            final(self).scope_tables() == old(self).scope_tables().drop_last().push(
                old(self).scope_tables().last() + numbered(elem_names(elements@), old(self).next_slot())),
        decreases elements, 1nat,
    {
        let mut i: usize = 0;
        assert(elements@.take(0) =~= Seq::<PatternElem>::empty());
        assert(old(self).scope_tables().drop_last().push(old(self).scope_tables().last() + Seq::empty())
            =~= old(self).scope_tables());
        assert(numbered(Seq::empty(), old(self).next_slot()) =~= Seq::empty());
        while i < elements.len()
            invariant
                i <= elements@.len(),
                self.wf(),
                self.same_tables(old(self)),
                self.emitted() == old(self).emitted(),
                old(self).next_slot() + elem_names(elements@).len() <= u32::MAX,
                old(self).scope_tables().len() > 0,
                self.next_slot() == old(self).next_slot() + elem_names(elements@.take(i as int)).len(),
                self.scope_tables() == old(self).scope_tables().drop_last().push(
                    old(self).scope_tables().last() + numbered(elem_names(elements@.take(i as int)), old(self).next_slot())),
            decreases elements@.len() - i,
        {
            assert(elements@.take(i + 1).drop_last() =~= elements@.take(i as int));
            proof { lemma_elem_names_prefix(elements@, i as int + 1); }
            match &elements[i] {
                PatternElem::Rest(_) => {
                    assert(elem_names(elements@.take(i + 1)) =~= elem_names(elements@.take(i as int)));
                },
                PatternElem::Pattern(p) => {
                    let ghost mid = self.scope_tables();
                    proof { lemma_elem_names_mono(elements@, i as int + 1); }
                    match self.declare_pattern(p) {
                        Ok(()) => {},
                        Err(_) => {},
                    }
                    proof {
                        let prev = elem_names(elements@.take(i as int));
                        assert(mid.drop_last() =~= old(self).scope_tables().drop_last());
                        assert(self.scope_tables().last() =~= old(self).scope_tables().last()
                            + (numbered(prev, old(self).next_slot()) + numbered(pattern_names(*p), old(self).next_slot() + prev.len())));
                        let cur = pattern_names(*p);
                        assert(elem_names(elements@.take(i + 1)) == prev + cur);
                        assert(numbered(prev + cur, old(self).next_slot())
                            =~= numbered(prev, old(self).next_slot()) + numbered(cur, old(self).next_slot() + prev.len()));
                        assert(self.scope_tables() =~= old(self).scope_tables().drop_last().push(
                            old(self).scope_tables().last() + numbered(elem_names(elements@.take(i + 1)), old(self).next_slot())));
                    }
                },
            }
            i += 1;
        }
        assert(elements@.take(elements@.len() as int) =~= elements@);
    }

    /// Adds `name` at `slot` to the innermost scope.
    fn insert_local(&mut self, name: String, slot: u32)
        requires
            old(self).wf(),
            old(self).scope_tables().len() > 0,
        ensures
            final(self).wf(),
            final(self).same_tables(old(self)),
            final(self).emitted() == old(self).emitted(),
            final(self).next_slot() == old(self).next_slot(),
            final(self).scope_tables() == old(self).scope_tables().drop_last().push(
                old(self).scope_tables().last().push((name, slot))),
    {
        let n = self.scopes.len();
        let mut top: Vec<(String, u32)> = Vec::new();
        std::mem::swap(&mut top, &mut self.scopes[n - 1]);
        top.push((name, slot));
        self.scopes.set(n - 1, top);
        assert(self.scope_tables() =~= old(self).scope_tables().drop_last().push(
            old(self).scope_tables().last().push((name, slot))));
    }
}

proof fn lemma_elem_names_mono(es: Seq<PatternElem>, k: int)
    requires
        0 <= k <= es.len(),
    ensures
        elem_names(es.take(k)).len() <= elem_names(es).len(),
    decreases es.len(),
{
    if k < es.len() {
        assert(es.drop_last().take(k) =~= es.take(k));
        lemma_elem_names_mono(es.drop_last(), k);
    } else {
        assert(es.take(k) =~= es);
    }
}

proof fn lemma_field_names_mono(fs: Seq<StructPatternField>, k: int)
    requires
        0 <= k <= fs.len(),
    ensures
        field_names(fs.take(k)).len() <= field_names(fs).len(),
    decreases fs.len(),
{
    if k < fs.len() {
        assert(fs.drop_last().take(k) =~= fs.take(k));
        lemma_field_names_mono(fs.drop_last(), k);
    } else {
        assert(fs.take(k) =~= fs);
    }
}

proof fn lemma_payload_names_mono(ps: Seq<Pattern>, k: int)
    requires
        0 <= k <= ps.len(),
    ensures
        payload_names(ps.take(k)).len() <= payload_names(ps).len(),
    decreases ps.len(),
{
    if k < ps.len() {
        assert(ps.drop_last().take(k) =~= ps.take(k));
        lemma_payload_names_mono(ps.drop_last(), k);
    } else {
        assert(ps.take(k) =~= ps);
    }
}

proof fn lemma_elem_names_prefix(es: Seq<PatternElem>, k: int)
    requires
        0 < k <= es.len(),
    ensures
        elem_names(es.take(k)) == elem_names(es.take(k - 1)) + match es[k - 1] {
            PatternElem::Pattern(q) => pattern_names(q),
            PatternElem::Rest(_) => Seq::<String>::empty(),
        },
{
    assert(es.take(k).drop_last() =~= es.take(k - 1));
}

proof fn lemma_field_names_prefix(fs: Seq<StructPatternField>, k: int)
    requires
        0 < k <= fs.len(),
    ensures
        field_names(fs.take(k)) == field_names(fs.take(k - 1)) + pattern_names(fs[k - 1].pattern),
{
    assert(fs.take(k).drop_last() =~= fs.take(k - 1));
}

proof fn lemma_payload_names_prefix(ps: Seq<Pattern>, k: int)
    requires
        0 < k <= ps.len(),
    ensures
        payload_names(ps.take(k)) == payload_names(ps.take(k - 1)) + pattern_names(ps[k - 1]),
{
    assert(ps.take(k).drop_last() =~= ps.take(k - 1));
}

/// The index of the first `..` in `es` at or after `i`.
pub open spec fn first_rest_from(es: Seq<PatternElem>, i: int) -> Option<int>
    decreases es.len() - i,
{
    if i < 0 || i >= es.len() {
        None
    } else if es[i] is Rest {
        Some(i)
    } else {
        first_rest_from(es, i + 1)
    }
}

/// The first `..` found from `i` on is a `..` at or after `i`; when none is found there is none.
pub proof fn lemma_first_rest_bounds(es: Seq<PatternElem>, i: int)
    requires
        0 <= i,
    ensures
        first_rest_from(es, i) matches Some(k) ==> i <= k < es.len() && es[k] is Rest,
        first_rest_from(es, i) is None ==> forall|j: int| i <= j < es.len() ==> !(es[j] is Rest),
    decreases es.len() - i,
{
    if i < es.len() && !(es[i] is Rest) {
        lemma_first_rest_bounds(es, i + 1);
    }
}

/// The number of local slots destructuring into `p` takes: one temporary for each
/// tuple, array and struct pattern in it.
pub open spec fn store_slots(p: Pattern) -> nat
    decreases p, 0nat,
{
    match p {
        Pattern::Tuple { elements, .. } => 1 + elems_slots(elements@),
        Pattern::Array { elements, .. } => 1 + elems_slots(elements@),
        Pattern::Struct { fields, .. } => 1 + fields_slots(fields@),
        Pattern::EnumVariant { payloads, .. } => payloads_slots(payloads@),
        _ => 0,
    }
}

pub open spec fn elems_slots(es: Seq<PatternElem>) -> nat
    decreases es, 1nat,
{
    if es.len() == 0 {
        0
    } else {
        elems_slots(es.drop_last()) + match es.last() {
            PatternElem::Pattern(q) => store_slots(q),
            PatternElem::Rest(_) => 0,
        }
    }
}

pub open spec fn fields_slots(fs: Seq<StructPatternField>) -> nat
    decreases fs, 1nat,
{
    if fs.len() == 0 {
        0
    } else {
        fields_slots(fs.drop_last()) + store_slots(fs.last().pattern)
    }
}

pub open spec fn payloads_slots(ps: Seq<Pattern>) -> nat
    decreases ps, 1nat,
{
    if ps.len() == 0 {
        0
    } else {
        payloads_slots(ps.drop_last()) + store_slots(ps.last())
    }
}

/// The number of instructions that destructure a value into `p`.
pub open spec fn store_len(p: Pattern) -> nat
    decreases p, 0nat,
{
    match p {
        Pattern::Wildcard { .. } => 1,
        Pattern::Binding { .. } => 1,
        Pattern::IntLiteral { .. } => 3,
        Pattern::StringLiteral { .. } => 3,
        Pattern::BoolLiteral { .. } => 3,
        Pattern::Tuple { elements, .. } => seq_len(elements@, false),
        Pattern::Array { elements, .. } => seq_len(elements@, true),
        Pattern::Struct { fields, .. } => 1 + fields_len(fields@),
        Pattern::EnumVariant { payloads, .. } => 1 + payloads_len(payloads@),
    }
}

/// The number of instructions that destructure a tuple (or an `array`) into the elements `es`.
pub open spec fn seq_len(es: Seq<PatternElem>, array: bool) -> nat
    decreases es, 2nat,
{
    1 + match first_rest_from(es, 0) {
        None => if array { 2 + elems_len(es, 3) } else { elems_len(es, 2) },
        Some(k) => {
            proof { lemma_first_rest_bounds(es, 0); }
            elems_len(es.take(k), head_len(array, false)) + elems_len(es.skip(k + 1), 2)
        },
    }
}

/// The number of instructions for the elements `es`, each element taking `head` of its own.
pub open spec fn elems_len(es: Seq<PatternElem>, head: nat) -> nat
    decreases es, 1nat,
{
    if es.len() == 0 {
        0
    } else {
        elems_len(es.drop_last(), head) + match es.last() {
            PatternElem::Pattern(q) => head + store_len(q),
            PatternElem::Rest(_) => 0,
        }
    }
}

pub open spec fn fields_len(fs: Seq<StructPatternField>) -> nat
    decreases fs, 1nat,
{
    if fs.len() == 0 {
        0
    } else {
        fields_len(fs.drop_last()) + 2 + store_len(fs.last().pattern)
    }
}

pub open spec fn payloads_len(ps: Seq<Pattern>) -> nat
    decreases ps, 1nat,
{
    if ps.len() == 0 {
        0
    } else {
        payloads_len(ps.drop_last()) + store_len(ps.last())
    }
}

/// The first name in `p` that resolves to no variable, with its location, in the order
/// destructuring visits the names (enum payloads last to first).
pub open spec fn first_unknown(p: Pattern, ss: Seq<Seq<(String, u32)>>, gs: Seq<(String, u32)>) -> Option<(Seq<char>, Span)>
    decreases p, 0nat,
{
    match p {
        Pattern::Binding { name, name_span } =>
            if var_slot_of(ss, gs, name@) is None { Some((name@, name_span)) } else { None },
        Pattern::Tuple { elements, .. } => elems_unknown(elements@, ss, gs),
        Pattern::Array { elements, .. } => elems_unknown(elements@, ss, gs),
        Pattern::Struct { fields, .. } => fields_unknown(fields@, ss, gs),
        Pattern::EnumVariant { payloads, .. } => payloads_unknown(payloads@, ss, gs),
        _ => None,
    }
}

pub open spec fn elems_unknown(es: Seq<PatternElem>, ss: Seq<Seq<(String, u32)>>, gs: Seq<(String, u32)>) -> Option<(Seq<char>, Span)>
    decreases es, 1nat,
{
    if es.len() == 0 {
        None
    } else {
        match elems_unknown(es.drop_last(), ss, gs) {
            Some(x) => Some(x),
            None => match es.last() {
                PatternElem::Pattern(q) => first_unknown(q, ss, gs),
                PatternElem::Rest(_) => None,
            },
        }
    }
}

pub open spec fn fields_unknown(fs: Seq<StructPatternField>, ss: Seq<Seq<(String, u32)>>, gs: Seq<(String, u32)>) -> Option<(Seq<char>, Span)>
    decreases fs, 1nat,
{
    if fs.len() == 0 {
        None
    } else {
        match fields_unknown(fs.drop_last(), ss, gs) {
            Some(x) => Some(x),
            None => first_unknown(fs.last().pattern, ss, gs),
        }
    }
}

/// Payloads are visited last to first.
pub open spec fn payloads_unknown(ps: Seq<Pattern>, ss: Seq<Seq<(String, u32)>>, gs: Seq<(String, u32)>) -> Option<(Seq<char>, Span)>
    decreases ps, 1nat,
{
    if ps.len() == 0 {
        None
    } else {
        match first_unknown(ps.last(), ss, gs) {
            Some(x) => Some(x),
            None => payloads_unknown(ps.drop_last(), ss, gs),
        }
    }
}

/// `c` compares the value on the stack with a literal and fails at run time when they differ.
pub open spec fn literal_check(c: Seq<Instr>, push: Instr, span: Span) -> bool {
    c == seq![push, Instr::BinOp { op: BinaryOp::Eq, span }, Instr::AssertBool { span }]
}

/// `c` stores the value on the stack into the variable `v`.
pub open spec fn store_into(c: Seq<Instr>, v: VarSlot, span: Span) -> bool {
    c == seq![match v.kind {
        VarSlotKind::Local => Instr::StoreLocal { slot: v.slot, span },
        VarSlotKind::Global => Instr::StoreGlobal { slot: v.slot, span },
    }]
}

/// `c` destructures the value on top of the stack into `p`: literals are checked,
/// names are stored into their variables, and each tuple, array and struct is kept
/// in a temporary local slot (taken from `slot` upward) while its parts are extracted.
pub open spec fn stored(p: Pattern, ss: Seq<Seq<(String, u32)>>, gs: Seq<(String, u32)>, c: Seq<Instr>, slot: nat) -> bool
    decreases p, 0nat,
{
    match p {
        Pattern::Wildcard { .. } => c == seq![Instr::Pop],
        Pattern::IntLiteral { original, radix, span, .. } =>
            literal_check(c, Instr::PushInt { value: original, radix, span }, span),
        Pattern::StringLiteral { value, span } => literal_check(c, Instr::PushString { value }, span),
        Pattern::BoolLiteral { value, span } => literal_check(c, Instr::PushBool { value }, span),
        Pattern::Binding { name, name_span } => match var_slot_of(ss, gs, name@) {
            Some(v) => store_into(c, v, name_span),
            None => false,
        },
        Pattern::Tuple { elements, span } => seq_stored(elements@, span, false, ss, gs, c, slot),
        Pattern::Array { elements, span } => seq_stored(elements@, span, true, ss, gs, c, slot),
        Pattern::Struct { fields, span, .. } => {
            &&& c.len() >= 1
            &&& c[0] == Instr::StoreLocal { slot: slot as u32, span }
            &&& fields_stored(fields@, ss, gs, c.skip(1), slot + 1, slot, span)
        },
        Pattern::EnumVariant { enum_name, variant, payloads, span, .. } => {
            &&& c.len() >= 1
            &&& c[0] == Instr::UnpackEnumVariant { enum_name, variant, payload_count: payloads@.len() as usize, span }
            &&& payloads_stored(payloads@, ss, gs, c.skip(1), slot)
        },
    }
}

/// `c` destructures a tuple (or an `array`) into the elements `es`: the value is kept in the
/// temporary slot `slot`; an array without `..` must have exactly as many elements; the
/// elements before the first `..` are taken by index, the ones after it from the end.
pub open spec fn seq_stored(
    es: Seq<PatternElem>,
    span: Span,
    array: bool,
    ss: Seq<Seq<(String, u32)>>,
    gs: Seq<(String, u32)>,
    c: Seq<Instr>,
    slot: nat,
) -> bool
    decreases es, 3nat,
{
    &&& c.len() >= 1
    &&& c[0] == Instr::StoreLocal { slot: slot as u32, span }
    &&& match first_rest_from(es, 0) {
        None => if array {
            &&& c.len() >= 3
            &&& c[1] == Instr::LoadLocal { slot: slot as u32, span }
            &&& c[2] == Instr::AssertArrayLenEq { expected: es.len() as usize, span }
            &&& elems_stored(es, ss, gs, c.skip(3), slot + 1, slot, span, true, false)
        } else {
            elems_stored(es, ss, gs, c.skip(1), slot + 1, slot, span, false, false)
        },
        Some(k) => {
            proof { lemma_first_rest_bounds(es, 0); }
            let pre = es.take(k);
            let n = 1 + elems_len(pre, head_len(array, false)) as int;
            &&& c.len() >= n
            &&& elems_stored(pre, ss, gs, c.subrange(1, n), slot + 1, slot, span, array, false)
            &&& elems_stored(es.skip(k + 1), ss, gs, c.skip(n), slot + 1 + elems_slots(pre), slot, span, array, true)
        },
    }
}

/// The instructions that put the element at index `j` of the `total` elements of the
/// tuple or array in slot `tmp` on the stack: by its index from the start, or (`from_end`)
/// by its distance from the end.
pub open spec fn elem_head(h: Seq<Instr>, array: bool, from_end: bool, tmp: nat, span: Span, j: int, total: int) -> bool {
    &&& h.len() == (if array && !from_end { 3int } else { 2int })
    &&& h[0] == Instr::LoadLocal { slot: tmp as u32, span }
    &&& if !array && !from_end {
        h[1] == Instr::GetTupleField { index: j as u32, span }
    } else if !array {
        h[1] == Instr::GetTupleFieldFromEnd { offset_from_end: (total - 1 - j) as u32, span }
    } else if !from_end {
        &&& h[1] matches Instr::PushInt { value, radix, span: s } && value@ == decimal(j as nat) && radix == 10 && s == span
        &&& h[2] == Instr::GetArrayIndex { span }
    } else {
        h[1] == Instr::GetArrayIndexFromEnd { offset_from_end: (total - 1 - j) as u32, span }
    }
}

pub open spec fn head_len(array: bool, from_end: bool) -> nat {
    if array && !from_end { 3 } else { 2 }
}

/// `c` destructures the elements `es` (skipping `..`) of the tuple or array in slot `tmp`.
pub open spec fn elems_stored(
    es: Seq<PatternElem>,
    ss: Seq<Seq<(String, u32)>>,
    gs: Seq<(String, u32)>,
    c: Seq<Instr>,
    slot: nat,
    tmp: nat,
    span: Span,
    array: bool,
    from_end: bool,
) -> bool
    decreases es, 2nat,
{
    elems_stored_upto(es, ss, gs, c, slot, tmp, span, array, from_end, es.len() as int)
}

/// `c` destructures the elements `es`, a prefix of `total` elements.
pub open spec fn elems_stored_upto(
    es: Seq<PatternElem>,
    ss: Seq<Seq<(String, u32)>>,
    gs: Seq<(String, u32)>,
    c: Seq<Instr>,
    slot: nat,
    tmp: nat,
    span: Span,
    array: bool,
    from_end: bool,
    total: int,
) -> bool
    decreases es, 1nat,
{
    if es.len() == 0 {
        c.len() == 0
    } else {
        let init = es.drop_last();
        let n = elems_len(init, head_len(array, from_end)) as int;
        &&& c.len() >= n
        &&& elems_stored_upto(init, ss, gs, c.take(n), slot, tmp, span, array, from_end, total)
        &&& match es.last() {
            PatternElem::Rest(_) => c.len() == n,
            PatternElem::Pattern(q) => {
                let h = head_len(array, from_end) as int;
                &&& c.len() == n + h + store_len(q)
                &&& elem_head(c.subrange(n, n + h), array, from_end, tmp, span, init.len() as int, total)
                &&& stored(q, ss, gs, c.skip(n + h), slot + elems_slots(init))
            },
        }
    }
}

/// `c` destructures the fields `fs` of the struct in slot `tmp`.
pub open spec fn fields_stored(
    fs: Seq<StructPatternField>,
    ss: Seq<Seq<(String, u32)>>,
    gs: Seq<(String, u32)>,
    c: Seq<Instr>,
    slot: nat,
    tmp: nat,
    span: Span,
) -> bool
    decreases fs, 1nat,
{
    if fs.len() == 0 {
        c.len() == 0
    } else {
        let init = fs.drop_last();
        let n = fields_len(init) as int;
        let f = fs.last();
        &&& c.len() == n + 2 + store_len(f.pattern)
        &&& fields_stored(init, ss, gs, c.take(n), slot, tmp, span)
        &&& c[n] == Instr::LoadLocal { slot: tmp as u32, span }
        &&& c[n + 1] == Instr::GetStructField { field: f.name, span }
        &&& stored(f.pattern, ss, gs, c.skip(n + 2), slot + fields_slots(init))
    }
}

/// `c` destructures the unpacked payloads `ps`, which lie on the stack with the last on top.
pub open spec fn payloads_stored(
    ps: Seq<Pattern>,
    ss: Seq<Seq<(String, u32)>>,
    gs: Seq<(String, u32)>,
    c: Seq<Instr>,
    slot: nat,
) -> bool
    decreases ps, 1nat,
{
    if ps.len() == 0 {
        c.len() == 0
    } else {
        let n = store_len(ps.last());
        &&& c.len() == n + payloads_len(ps.drop_last())
        &&& stored(ps.last(), ss, gs, c.take(n as int), slot)
        &&& payloads_stored(ps.drop_last(), ss, gs, c.skip(n as int), slot + store_slots(ps.last()))
    }
}

/// `r` reports the name `name` at `span` as an unknown variable.
pub open spec fn unknown_variable(r: Result<(), CompileError>, name: Seq<char>, span: Span) -> bool {
    r matches Err(e) && e.message@ == "unknown variable `"@ + name + "`"@ && e.span == Some(span)
}

impl<'a> FnGen<'a> {
    /// Only instructions were appended, only slots were taken (at most `slots` of them),
    /// and the scopes and tables are those of `old`.
    pub open spec fn extends(&self, old: &Self, slots: nat) -> bool {
        &&& self.wf()
        &&& self.same_tables(old)
        &&& self.scope_tables() == old.scope_tables()
        &&& self.emitted().len() >= old.emitted().len()
        &&& self.emitted().take(old.emitted().len() as int) == old.emitted()
        &&& old.next_slot() <= self.next_slot() <= old.next_slot() + slots
    }

    /// The instructions appended since `old`.
    pub open spec fn appended(&self, old: &Self) -> Seq<Instr> {
        self.emitted().skip(old.emitted().len() as int)
    }
}

/// The index of the first `..` among the elements of a tuple or array pattern.
fn first_rest(elements: &Vec<PatternElem>) -> (r: Option<usize>)
    ensures
        r matches Some(k) ==> first_rest_from(elements@, 0) == Some(k as int),
        r is None ==> first_rest_from(elements@, 0) is None,
{
    let mut i: usize = 0;
    while i < elements.len()
        invariant
            i <= elements@.len(),
            first_rest_from(elements@, 0) == first_rest_from(elements@, i as int),
        decreases elements@.len() - i,
    {
        if matches!(elements[i], PatternElem::Rest(_)) {
            return Some(i);
        }
        i += 1;
    }
    None
}

/// The error for a name that resolves to no variable.
fn unknown_variable_error(name: &String, span: Span) -> (r: Result<(), CompileError>)
    ensures
        unknown_variable(r, name@, span),
{
    let mut out: Vec<char> = Vec::new();
    push_str(&mut out, "unknown variable `");
    push_str(&mut out, name.as_str());
    push_str(&mut out, "`");
    assert(out@ =~= "unknown variable `"@ + name@ + "`"@);
    Err(CompileError::new(chars_to_string(out.as_slice()), Some(span)))
}

impl<'a> FnGen<'a> {
    /// Destructures the value on top of the stack into `pattern`: literals are checked at
    /// run time, names are stored into the variables they resolve to, and tuples, arrays
    /// and structs are taken apart through a temporary slot each.
    pub fn store_pattern_value(&mut self, pattern: &Pattern) -> (r: Result<(), CompileError>)
        requires
            old(self).wf(),
            old(self).next_slot() + store_slots(*pattern) <= u32::MAX,
        ensures
            final(self).extends(old(self), store_slots(*pattern)),
            match first_unknown(*pattern, old(self).scope_tables(), old(self).globals_table()) {
                None => {
                    &&& r is Ok
                    &&& final(self).next_slot() == old(self).next_slot() + store_slots(*pattern)
                    &&& final(self).emitted().len() == old(self).emitted().len() + store_len(*pattern)
                    &&& stored(*pattern, old(self).scope_tables(), old(self).globals_table(),
                        final(self).appended(old(self)), old(self).next_slot())
                },
                Some((name, span)) => unknown_variable(r, name, span),
            },
        decreases pattern, 0nat, 0nat,
    {
        let ghost ss = self.scope_tables();
        let ghost gs = self.globals_table();
        let ghost n0 = self.emitted().len();
        match pattern {
            Pattern::Wildcard { .. } => {
                self.emit(Instr::Pop);
                assert(self.appended(old(self)) =~= seq![Instr::Pop]);
                assert(self.emitted().take(old(self).emitted().len() as int) =~= old(self).emitted());
                Ok(())
            },
            Pattern::IntLiteral { original, radix, span, .. } => {
                self.emit(Instr::PushInt { value: original.clone(), radix: *radix, span: *span });
                self.emit(Instr::BinOp { op: BinaryOp::Eq, span: *span });
                self.emit(Instr::AssertBool { span: *span });
                assert(self.appended(old(self)) =~= seq![
                    Instr::PushInt { value: *original, radix: *radix, span: *span },
                    Instr::BinOp { op: BinaryOp::Eq, span: *span },
                    Instr::AssertBool { span: *span },
                ]);
                assert(self.emitted().take(old(self).emitted().len() as int) =~= old(self).emitted());
                Ok(())
            },
            Pattern::StringLiteral { value, span } => {
                self.emit(Instr::PushString { value: value.clone() });
                self.emit(Instr::BinOp { op: BinaryOp::Eq, span: *span });
                self.emit(Instr::AssertBool { span: *span });
                assert(self.appended(old(self)) =~= seq![
                    Instr::PushString { value: *value },
                    Instr::BinOp { op: BinaryOp::Eq, span: *span },
                    Instr::AssertBool { span: *span },
                ]);
                assert(self.emitted().take(old(self).emitted().len() as int) =~= old(self).emitted());
                Ok(())
            },
            Pattern::BoolLiteral { value, span } => {
                self.emit(Instr::PushBool { value: *value });
                self.emit(Instr::BinOp { op: BinaryOp::Eq, span: *span });
                self.emit(Instr::AssertBool { span: *span });
                assert(self.appended(old(self)) =~= seq![
                    Instr::PushBool { value: *value },
                    Instr::BinOp { op: BinaryOp::Eq, span: *span },
                    Instr::AssertBool { span: *span },
                ]);
                assert(self.emitted().take(old(self).emitted().len() as int) =~= old(self).emitted());
                Ok(())
            },
            Pattern::Binding { name, name_span } => {
                let v = match self.resolve_var(name.as_str()) {
                    Some(v) => v,
                    None => {
                        assert(self.emitted().take(self.emitted().len() as int) =~= self.emitted());
                        return unknown_variable_error(name, *name_span);
                    },
                };
                let instr = match v.kind {
                    VarSlotKind::Local => Instr::StoreLocal { slot: v.slot, span: *name_span },
                    VarSlotKind::Global => Instr::StoreGlobal { slot: v.slot, span: *name_span },
                };
                self.emit(instr);
                assert(self.appended(old(self)) =~= seq![instr]);
                assert(self.emitted().take(old(self).emitted().len() as int) =~= old(self).emitted());
                Ok(())
            },
            Pattern::Tuple { elements, span } => self.store_sequence(elements, *span, false),
            Pattern::Array { elements, span } => self.store_sequence(elements, *span, true),
            Pattern::Struct { fields, span: struct_span, .. } => {
                let tmp = self.alloc_slot();
                self.emit(Instr::StoreLocal { slot: tmp, span: *struct_span });
                assert(self.emitted().take(old(self).emitted().len() as int) =~= old(self).emitted());
                let ghost g1 = *self;
                let r1 = self.store_fields(fields, tmp, *struct_span);
                proof { self.lemma_appended_split(old(self), &g1); }
                r1
            },
            Pattern::EnumVariant { enum_name, variant, payloads, span, .. } => {
                self.emit(Instr::UnpackEnumVariant {
                    enum_name: enum_name.clone(),
                    variant: variant.clone(),
                    payload_count: payloads.len(),
                    span: *span,
                });
                assert(self.emitted().take(old(self).emitted().len() as int) =~= old(self).emitted());
                let ghost g1 = *self;
                assert(payloads@.take(payloads@.len() as int) =~= payloads@);
                let r1 = self.store_payloads(payloads, payloads.len());
                proof { self.lemma_appended_split(old(self), &g1); }
                r1
            },
        }
    }

    /// Destructures the tuple (or `array`) on top of the stack into the elements `elements`,
    /// keeping it in a temporary slot while its elements are extracted.
    fn store_sequence(&mut self, elements: &Vec<PatternElem>, span: Span, array: bool) -> (r: Result<(), CompileError>)
        requires
            old(self).wf(),
            old(self).next_slot() + 1 + elems_slots(elements@) <= u32::MAX,
        ensures
            final(self).extends(old(self), 1 + elems_slots(elements@)),
            match elems_unknown(elements@, old(self).scope_tables(), old(self).globals_table()) {
                None => {
                    &&& r is Ok
                    &&& final(self).next_slot() == old(self).next_slot() + 1 + elems_slots(elements@)
                    &&& final(self).emitted().len() == old(self).emitted().len() + seq_len(elements@, array)
                    &&& seq_stored(elements@, span, array, old(self).scope_tables(), old(self).globals_table(),
                        final(self).appended(old(self)), old(self).next_slot())
                },
                Some((name, sp)) => unknown_variable(r, name, sp),
            },
        decreases elements, 2nat, 0nat,
    {
        let ghost ss = self.scope_tables();
        let ghost gs = self.globals_table();
        let tmp = self.alloc_slot();
        self.emit(Instr::StoreLocal { slot: tmp, span });
        let rest_idx = first_rest(elements);
        proof {
            lemma_first_rest_bounds(elements@, 0);
        }
        match rest_idx {
            None => {
                if array {
                    self.emit(Instr::LoadLocal { slot: tmp, span });
                    self.emit(Instr::AssertArrayLenEq { expected: elements.len(), span });
                    assert(self.appended(old(self)) =~= seq![
                        Instr::StoreLocal { slot: tmp, span },
                        Instr::LoadLocal { slot: tmp, span },
                        Instr::AssertArrayLenEq { expected: elements@.len() as usize, span },
                    ]);
                } else {
                    assert(self.appended(old(self)) =~= seq![Instr::StoreLocal { slot: tmp, span }]);
                }
                assert(self.emitted().take(old(self).emitted().len() as int) =~= old(self).emitted());
                let ghost g1 = *self;
                assert(elements@.subrange(0, elements@.len() as int) =~= elements@);
                let r1 = self.store_elems(elements, 0, elements.len(), tmp, span, array, false);
                proof { self.lemma_appended_split(old(self), &g1); }
                r1
            },
            Some(k) => {
                assert(self.appended(old(self)) =~= seq![Instr::StoreLocal { slot: tmp, span }]);
                assert(self.emitted().take(old(self).emitted().len() as int) =~= old(self).emitted());
                let ghost g1 = *self;
                proof {
                    lemma_elems_split_at_rest(elements@, k as int, ss, gs);
                    assert(elements@.subrange(0, k as int) =~= elements@.take(k as int));
                    assert(elements@.subrange(k + 1, elements@.len() as int) =~= elements@.skip(k + 1));
                }
                let n_elems = elements.len();
                assert(k < n_elems);
                match self.store_elems(elements, 0, k, tmp, span, array, false) {
                    Ok(()) => {},
                    Err(e) => {
                        proof { self.lemma_appended_split(old(self), &g1); }
                        return Err(e);
                    },
                }
                let ghost g2 = *self;
                let r2 = self.store_elems(elements, k + 1, n_elems, tmp, span, array, true);
                proof {
                    self.lemma_appended_split(&g1, &g2);
                    self.lemma_appended_split(old(self), &g1);
                    if r2 is Ok {
                        let c = self.appended(old(self));
                        let n = 1 + elems_len(elements@.take(k as int), head_len(array, false)) as int;
                        assert(c.subrange(1, n) =~= g2.appended(&g1));
                        assert(c.skip(n) =~= self.appended(&g2));
                    }
                }
                r2
            },
        }
    }

    /// What was appended since `a` is what was appended up to `b`, then since `b`.
    proof fn lemma_appended_split(&self, a: &Self, b: &Self)
        requires
            b.emitted().len() >= a.emitted().len(),
            b.emitted().take(a.emitted().len() as int) == a.emitted(),
            self.emitted().len() >= b.emitted().len(),
            self.emitted().take(b.emitted().len() as int) == b.emitted(),
        ensures
            self.appended(a) == b.appended(a) + self.appended(b),
            self.emitted().take(a.emitted().len() as int) == a.emitted(),
            self.appended(a).len() == b.appended(a).len() + self.appended(b).len(),
            self.appended(a).take(b.appended(a).len() as int) == b.appended(a),
            self.appended(a).skip(b.appended(a).len() as int) == self.appended(b),
    {
        assert(self.appended(a) =~= b.appended(a) + self.appended(b));
        assert(self.emitted().take(a.emitted().len() as int) =~= a.emitted());
        assert(self.appended(a).take(b.appended(a).len() as int) =~= b.appended(a));
        assert(self.appended(a).skip(b.appended(a).len() as int) =~= self.appended(b));
    }
}

/// A `..` at `k` splits the elements into the ones before and the ones after it.
proof fn lemma_elems_split_at_rest(es: Seq<PatternElem>, k: int, ss: Seq<Seq<(String, u32)>>, gs: Seq<(String, u32)>)
    requires
        0 <= k < es.len(),
        es[k] is Rest,
    ensures
        elems_slots(es) == elems_slots(es.take(k)) + elems_slots(es.skip(k + 1)),
        elems_unknown(es, ss, gs) == match elems_unknown(es.take(k), ss, gs) {
            Some(x) => Some(x),
            None => elems_unknown(es.skip(k + 1), ss, gs),
        },
{
    let a = es.take(k + 1);
    let b = es.skip(k + 1);
    assert(es =~= a + b);
    assert(a.drop_last() =~= es.take(k));
    lemma_elems_concat(a, b, ss, gs);
}

proof fn lemma_elems_concat(a: Seq<PatternElem>, b: Seq<PatternElem>, ss: Seq<Seq<(String, u32)>>, gs: Seq<(String, u32)>)
    ensures
        elems_slots(a + b) == elems_slots(a) + elems_slots(b),
        elems_unknown(a + b, ss, gs) == match elems_unknown(a, ss, gs) {
            Some(x) => Some(x),
            None => elems_unknown(b, ss, gs),
        },
    decreases b.len(),
{
    if b.len() == 0 {
        assert(a + b =~= a);
    } else {
        assert((a + b).drop_last() =~= a + b.drop_last());
        assert((a + b).last() == b.last());
        lemma_elems_concat(a, b.drop_last(), ss, gs);
    }
}

/// A name found unknown in a prefix of the elements is the first unknown name of all of them.
proof fn lemma_elems_unknown_prefix(es: Seq<PatternElem>, k: int, ss: Seq<Seq<(String, u32)>>, gs: Seq<(String, u32)>)
    requires
        0 <= k <= es.len(),
    ensures
        elems_slots(es.take(k)) <= elems_slots(es),
        elems_unknown(es.take(k), ss, gs) is Some ==> elems_unknown(es, ss, gs) == elems_unknown(es.take(k), ss, gs),
{
    assert(es =~= es.take(k) + es.skip(k));
    lemma_elems_concat(es.take(k), es.skip(k), ss, gs);
}

impl<'a> FnGen<'a> {
    /// Destructures the elements `elements[lo..hi]` (skipping `..`) of the tuple or array
    /// in slot `tmp`, fetching each by its index among them or (`from_end`) by its distance
    /// from their end.
    fn store_elems(
        &mut self,
        elements: &Vec<PatternElem>,
        lo: usize,
        hi: usize,
        tmp: u32,
        span: Span,
        array: bool,
        from_end: bool,
    ) -> (r: Result<(), CompileError>)
        requires
            old(self).wf(),
            lo <= hi <= elements@.len(),
            old(self).next_slot() + elems_slots(elements@.subrange(lo as int, hi as int)) <= u32::MAX,
        ensures
            final(self).extends(old(self), elems_slots(elements@.subrange(lo as int, hi as int))),
            match elems_unknown(elements@.subrange(lo as int, hi as int), old(self).scope_tables(), old(self).globals_table()) {
                None => {
                    &&& r is Ok
                    &&& final(self).next_slot() == old(self).next_slot() + elems_slots(elements@.subrange(lo as int, hi as int))
                    &&& final(self).emitted().len() == old(self).emitted().len()
                        + elems_len(elements@.subrange(lo as int, hi as int), head_len(array, from_end))
                    &&& elems_stored(elements@.subrange(lo as int, hi as int), old(self).scope_tables(), old(self).globals_table(),
                        final(self).appended(old(self)), old(self).next_slot(), tmp as nat, span, array, from_end)
                },
                Some((name, sp)) => unknown_variable(r, name, sp),
            },
        decreases elements, 1nat, 0nat,
    {
        let ghost es = elements@.subrange(lo as int, hi as int);
        let ghost ss = self.scope_tables();
        let ghost gs = self.globals_table();
        let ghost h = head_len(array, from_end);
        let total = hi - lo;
        let mut j: usize = 0;
        assert(es.take(0) =~= Seq::<PatternElem>::empty());
        assert(self.appended(old(self)) =~= Seq::<Instr>::empty());
        assert(self.emitted().take(self.emitted().len() as int) =~= self.emitted());
        while j < total
            invariant
                es == elements@.subrange(lo as int, hi as int),
                total == hi - lo,
                lo <= hi <= elements@.len(),
                j <= total,
                ss == old(self).scope_tables(),
                gs == old(self).globals_table(),
                h == head_len(array, from_end),
                old(self).next_slot() + elems_slots(es) <= u32::MAX,
                self.extends(old(self), elems_slots(es.take(j as int))),
                elems_unknown(es.take(j as int), ss, gs) is None,
                self.next_slot() == old(self).next_slot() + elems_slots(es.take(j as int)),
                self.emitted().len() == old(self).emitted().len() + elems_len(es.take(j as int), h),
                elems_stored_upto(es.take(j as int), ss, gs, self.appended(old(self)), old(self).next_slot(),
                    tmp as nat, span, array, from_end, total as int),
            decreases total - j,
        {
            proof {
                lemma_elems_unknown_prefix(es, j + 1, ss, gs);
                assert(es.take(j + 1).drop_last() =~= es.take(j as int));
                assert(es.take(j + 1).last() == elements@[lo + j]);
            }
            let ghost before = *self;
            match &elements[lo + j] {
                PatternElem::Rest(_) => {
                    assert(self.appended(old(self)).take(elems_len(es.take(j as int), h) as int) =~= self.appended(old(self)));
                },
                PatternElem::Pattern(p) => {
                    self.emit(Instr::LoadLocal { slot: tmp, span });
                    if !array && !from_end {
                        self.emit(Instr::GetTupleField { index: j as u32, span });
                        assert(self.appended(&before) =~= seq![
                            Instr::LoadLocal { slot: tmp, span },
                            Instr::GetTupleField { index: j as u32, span },
                        ]);
                    } else if !array {
                        self.emit(Instr::GetTupleFieldFromEnd { offset_from_end: (total - 1 - j) as u32, span });
                        assert(self.appended(&before) =~= seq![
                            Instr::LoadLocal { slot: tmp, span },
                            Instr::GetTupleFieldFromEnd { offset_from_end: (total - 1 - j) as u32, span },
                        ]);
                    } else if !from_end {
                        let mut digits: Vec<char> = Vec::new();
                        push_decimal(&mut digits, j);
                        let value = chars_to_string(digits.as_slice());
                        let ghost v = value;
                        self.emit(Instr::PushInt { value, radix: 10, span });
                        self.emit(Instr::GetArrayIndex { span });
                        assert(v@ =~= decimal(j as nat));
                        assert(self.appended(&before) =~= seq![
                            Instr::LoadLocal { slot: tmp, span },
                            Instr::PushInt { value: v, radix: 10, span },
                            Instr::GetArrayIndex { span },
                        ]);
                    } else {
                        self.emit(Instr::GetArrayIndexFromEnd { offset_from_end: (total - 1 - j) as u32, span });
                        assert(self.appended(&before) =~= seq![
                            Instr::LoadLocal { slot: tmp, span },
                            Instr::GetArrayIndexFromEnd { offset_from_end: (total - 1 - j) as u32, span },
                        ]);
                    }
                    assert(self.emitted().take(before.emitted().len() as int) =~= before.emitted());
                    let ghost mid = *self;
                    proof {
                        assert(decreases_to!(*elements => elements@[lo + j]));
                        mid.lemma_appended_split(old(self), &before);
                    }
                    let r = self.store_pattern_value(p);
                    proof {
                        self.lemma_appended_split(old(self), &mid);
                        self.lemma_appended_split(&before, &mid);
                        let a = self.appended(old(self));
                        let n = elems_len(es.take(j as int), h) as int;
                        assert(before.appended(old(self)).len() == n);
                        assert(a.take(n) =~= before.appended(old(self)));
                        assert(a.subrange(n, n + h) =~= mid.appended(&before));
                        assert(a.skip(n + h) =~= self.appended(&mid));
                    }
                    match r {
                        Ok(()) => {},
                        Err(e) => {
                            return Err(e);
                        },
                    }
                },
            }
            j += 1;
        }
        assert(es.take(total as int) =~= es);
        Ok(())
    }

    /// Destructures the fields `fields` of the struct in slot `tmp`, each fetched by name.
    fn store_fields(&mut self, fields: &Vec<StructPatternField>, tmp: u32, span: Span) -> (r: Result<(), CompileError>)
        requires
            old(self).wf(),
            old(self).next_slot() + fields_slots(fields@) <= u32::MAX,
        ensures
            final(self).extends(old(self), fields_slots(fields@)),
            match fields_unknown(fields@, old(self).scope_tables(), old(self).globals_table()) {
                None => {
                    &&& r is Ok
                    &&& final(self).next_slot() == old(self).next_slot() + fields_slots(fields@)
                    &&& final(self).emitted().len() == old(self).emitted().len() + fields_len(fields@)
                    &&& fields_stored(fields@, old(self).scope_tables(), old(self).globals_table(),
                        final(self).appended(old(self)), old(self).next_slot(), tmp as nat, span)
                },
                Some((name, sp)) => unknown_variable(r, name, sp),
            },
        decreases fields, 1nat, 0nat,
    {
        let ghost fs = fields@;
        let ghost ss = self.scope_tables();
        let ghost gs = self.globals_table();
        let mut i: usize = 0;
        assert(fs.take(0) =~= Seq::<StructPatternField>::empty());
        assert(self.appended(old(self)) =~= Seq::<Instr>::empty());
        assert(self.emitted().take(self.emitted().len() as int) =~= self.emitted());
        while i < fields.len()
            invariant
                fs == fields@,
                i <= fs.len(),
                ss == old(self).scope_tables(),
                gs == old(self).globals_table(),
                old(self).next_slot() + fields_slots(fs) <= u32::MAX,
                self.extends(old(self), fields_slots(fs.take(i as int))),
                fields_unknown(fs.take(i as int), ss, gs) is None,
                self.next_slot() == old(self).next_slot() + fields_slots(fs.take(i as int)),
                self.emitted().len() == old(self).emitted().len() + fields_len(fs.take(i as int)),
                fields_stored(fs.take(i as int), ss, gs, self.appended(old(self)), old(self).next_slot(), tmp as nat, span),
            decreases fs.len() - i,
        {
            proof {
                lemma_fields_prefix(fs, i + 1, ss, gs);
                assert(fs.take(i + 1).drop_last() =~= fs.take(i as int));
                assert(fs.take(i + 1).last() == fs[i as int]);
            }
            let ghost before = *self;
            self.emit(Instr::LoadLocal { slot: tmp, span });
            self.emit(Instr::GetStructField { field: fields[i].name.clone(), span });
            assert(self.appended(&before) =~= seq![
                Instr::LoadLocal { slot: tmp, span },
                Instr::GetStructField { field: fs[i as int].name, span },
            ]);
            assert(self.emitted().take(before.emitted().len() as int) =~= before.emitted());
            let ghost mid = *self;
            proof {
                assert(decreases_to!(*fields => fields@[i as int]));
                mid.lemma_appended_split(old(self), &before);
            }
            let r = self.store_pattern_value(&fields[i].pattern);
            proof {
                self.lemma_appended_split(old(self), &mid);
                self.lemma_appended_split(&before, &mid);
                let a = self.appended(old(self));
                let n = fields_len(fs.take(i as int)) as int;
                assert(a.take(n) =~= before.appended(old(self)));
                assert(a[n] == mid.appended(&before)[0]);
                assert(a[n + 1] == mid.appended(&before)[1]);
                assert(a.skip(n + 2) =~= self.appended(&mid));
            }
            match r {
                Ok(()) => {},
                Err(e) => {
                    return Err(e);
                },
            }
            i += 1;
        }
        assert(fs.take(fs.len() as int) =~= fs);
        Ok(())
    }

    /// Destructures the unpacked payloads `payloads[..hi]`, which lie on the stack with the
    /// last on top, last to first.
    fn store_payloads(&mut self, payloads: &Vec<Pattern>, hi: usize) -> (r: Result<(), CompileError>)
        requires
            old(self).wf(),
            hi <= payloads@.len(),
            old(self).next_slot() + payloads_slots(payloads@.take(hi as int)) <= u32::MAX,
        ensures
            final(self).extends(old(self), payloads_slots(payloads@.take(hi as int))),
            match payloads_unknown(payloads@.take(hi as int), old(self).scope_tables(), old(self).globals_table()) {
                None => {
                    &&& r is Ok
                    &&& final(self).next_slot() == old(self).next_slot() + payloads_slots(payloads@.take(hi as int))
                    &&& final(self).emitted().len() == old(self).emitted().len() + payloads_len(payloads@.take(hi as int))
                    &&& payloads_stored(payloads@.take(hi as int), old(self).scope_tables(), old(self).globals_table(),
                        final(self).appended(old(self)), old(self).next_slot())
                },
                Some((name, sp)) => unknown_variable(r, name, sp),
            },
        decreases payloads, 1nat, hi,
    {
        let ghost ps = payloads@.take(hi as int);
        if hi == 0 {
            assert(self.appended(old(self)) =~= Seq::<Instr>::empty());
            assert(self.emitted().take(self.emitted().len() as int) =~= self.emitted());
            return Ok(());
        }
        assert(ps.drop_last() =~= payloads@.take(hi - 1));
        assert(ps.last() == payloads@[hi - 1]);
        proof {
            assert(decreases_to!(*payloads => payloads@[hi - 1]));
        }
        match self.store_pattern_value(&payloads[hi - 1]) {
            Ok(()) => {},
            Err(e) => {
                return Err(e);
            },
        }
        let ghost mid = *self;
        let r = self.store_payloads(payloads, hi - 1);
        proof {
            self.lemma_appended_split(old(self), &mid);
            let a = self.appended(old(self));
            let n = store_len(payloads@[hi - 1]) as int;
            assert(a.take(n) =~= mid.appended(old(self)));
            assert(a.skip(n) =~= self.appended(&mid));
        }
        r
    }
}

proof fn lemma_fields_prefix(fs: Seq<StructPatternField>, k: int, ss: Seq<Seq<(String, u32)>>, gs: Seq<(String, u32)>)
    requires
        0 <= k <= fs.len(),
    ensures
        fields_slots(fs.take(k)) <= fields_slots(fs),
        fields_unknown(fs.take(k), ss, gs) is Some ==> fields_unknown(fs, ss, gs) == fields_unknown(fs.take(k), ss, gs),
    decreases fs.len(),
{
    if k < fs.len() {
        assert(fs.drop_last().take(k) =~= fs.take(k));
        lemma_fields_prefix(fs.drop_last(), k, ss, gs);
    } else {
        assert(fs.take(k) =~= fs);
    }
}

/// The variable an assignment target `a[i][j]...` indexes into, with the index
/// expressions and their spans, outermost base first.
pub open spec fn index_chain(n: AstNode) -> Option<(Seq<char>, Seq<(AstNode, Span)>)>
    decreases n,
{
    match n {
        AstNode::ArrayIndex { base, index, span } => match index_chain(*base) {
            Some((root, idxs)) => Some((root, idxs.push((*index, span)))),
            None => None,
        },
        AstNode::Identifier { name, .. } => Some((name@, Seq::empty())),
        _ => None,
    }
}

/// The variable an assignment target `a.f.g...` reaches into, with the field names
/// and their spans, outermost base first.
pub open spec fn field_chain(n: AstNode) -> Option<(Seq<char>, Seq<(Seq<char>, Span)>)>
    decreases n,
{
    match n {
        AstNode::FieldAccess { base, field, span } => match field_chain(*base) {
            Some((root, fs)) => Some((root, fs.push((field@, span)))),
            None => None,
        },
        AstNode::Identifier { name, .. } => Some((name@, Seq::empty())),
        _ => None,
    }
}

impl<'a> FnGen<'a> {
    /// The span a pattern reports errors at.
    pub fn span_of_pattern(&self, pattern: &Pattern) -> (r: Span)
        ensures
            r == crate::parser::pattern_span(*pattern),
    {
        match pattern {
            Pattern::Wildcard { span } => *span,
            Pattern::Binding { name_span, .. } => *name_span,
            Pattern::IntLiteral { span, .. } => *span,
            Pattern::StringLiteral { span, .. } => *span,
            Pattern::BoolLiteral { span, .. } => *span,
            Pattern::Tuple { span, .. } => *span,
            Pattern::Array { span, .. } => *span,
            Pattern::Struct { span, .. } => *span,
            Pattern::EnumVariant { span, .. } => *span,
        }
    }

    /// For an assignment target `v[i][j]...` whose variable `v` resolves: that variable and the
    /// index expressions, outermost first.
    pub fn extract_array_index_chain<'b>(&self, lhs: &'b AstNode) -> (r: Option<(VarSlot, Vec<(&'b AstNode, Span)>)>)
        ensures
            match index_chain(*lhs) {
                Some((root, idxs)) => match var_slot_of(self.scope_tables(), self.globals_table(), root) {
                    Some(v) => r matches Some((slot, found)) && slot == v && found@.len() == idxs.len()
                        && forall|k: int| 0 <= k < idxs.len()
                            ==> *(#[trigger] found@[k]).0 == idxs[k].0 && found@[k].1 == idxs[k].1,
                    None => r is None,
                },
                None => r is None,
            },
        decreases lhs,
    {
        match lhs {
            AstNode::ArrayIndex { base, index, span } => {
                match self.extract_array_index_chain(&**base) {
                    Some((root, mut indices)) => {
                        indices.push((&**index, *span));
                        Some((root, indices))
                    },
                    None => None,
                }
            },
            AstNode::Identifier { name, .. } => {
                match self.resolve_var(name.as_str()) {
                    Some(root) => Some((root, Vec::new())),
                    None => None,
                }
            },
            _ => None,
        }
    }

    /// For an assignment target `v.f.g...` whose variable `v` resolves: that variable and the
    /// field names, outermost first.
    pub fn extract_field_access_chain<'b>(&self, lhs: &'b AstNode) -> (r: Option<(VarSlot, Vec<(&'b str, Span)>)>)
        ensures
            match field_chain(*lhs) {
                Some((root, fs)) => match var_slot_of(self.scope_tables(), self.globals_table(), root) {
                    Some(v) => r matches Some((slot, found)) && slot == v && found@.len() == fs.len()
                        && forall|k: int| 0 <= k < fs.len()
                            ==> (#[trigger] found@[k]).0@ == fs[k].0 && found@[k].1 == fs[k].1,
                    None => r is None,
                },
                None => r is None,
            },
        decreases lhs,
    {
        match lhs {
            AstNode::FieldAccess { base, field, span } => {
                match self.extract_field_access_chain(&**base) {
                    Some((root, mut fields)) => {
                        fields.push((field.as_str(), *span));
                        Some((root, fields))
                    },
                    None => None,
                }
            },
            AstNode::Identifier { name, .. } => {
                match self.resolve_var(name.as_str()) {
                    Some(root) => Some((root, Vec::new())),
                    None => None,
                }
            },
            _ => None,
        }
    }

    /// A fresh jump label for the code being generated.
    pub fn new_label(&mut self) -> (l: LabelId)
        requires
            old(self).wf(),
            old(self).labels().label_count() < usize::MAX,
        ensures
            final(self).wf(),
            final(self).scope_tables() == old(self).scope_tables(),
            final(self).next_slot() == old(self).next_slot(),
            final(self).emitted() == old(self).emitted(),
            l.0 == old(self).labels().label_count(),
            final(self).labels().label_count() == old(self).labels().label_count() + 1,
    {
        self.labeler.new_label()
    }

    /// Places `label` at the next instruction to be emitted.
    pub fn mark_label(&mut self, label: LabelId)
        requires
            old(self).wf(),
            label.0 < old(self).labels().label_count(),
        ensures
            final(self).wf(),
            final(self).scope_tables() == old(self).scope_tables(),
            final(self).next_slot() == old(self).next_slot(),
            final(self).emitted() == old(self).emitted(),
            final(self).labels().label_count() == old(self).labels().label_count(),
            final(self).labels().placed() == old(self).labels().placed().update(label.0 as int, Some(old(self).emitted().len() as usize)),
    {
        let at = self.code.len();
        self.labeler.mark(label, at);
    }

    /// Points every jump that waits for a placed label at that label's position.
    pub fn patch_jumps(&mut self)
        requires
            old(self).wf(),
        ensures
            final(self).wf(),
            final(self).labels() == old(self).labels(),
            final(self).emitted() == patched(old(self).emitted(), old(self).labels().placed(), old(self).labels().pending()),
    {
        self.labeler.patch_all(&mut self.code);
        proof { lemma_patched_len(old(self).emitted(), old(self).labels().placed(), old(self).labels().pending()); }
    }

    /// Emits the jump `mk(0)` and records it as waiting for `label`.
    pub fn emit_jump(&mut self, label: LabelId, mk: impl FnOnce(usize) -> Instr)
        requires
            old(self).wf(),
            call_requires(mk, (0usize,)),
        ensures
            final(self).wf(),
            final(self).scope_tables() == old(self).scope_tables(),
            final(self).next_slot() == old(self).next_slot(),
            final(self).emitted().len() == old(self).emitted().len() + 1,
            final(self).emitted().take(old(self).emitted().len() as int) == old(self).emitted(),
            call_ensures(mk, (0usize,), final(self).emitted().last()),
            final(self).labels().label_count() == old(self).labels().label_count(),
            final(self).labels().placed() == old(self).labels().placed(),
            final(self).labels().pending() == old(self).labels().pending().push((label.0, old(self).emitted().len() as usize)),
            final(self).labels().waiting(label.0 as int)
                == old(self).labels().waiting(label.0 as int).push(old(self).emitted().len() as usize),
            forall|k: int| k != label.0 ==> final(self).labels().waiting(k) == old(self).labels().waiting(k),
    {
        let at = self.code.len();
        let instr = mk(0);
        self.emit(instr);
        self.labeler.add_patch(label, at);
        assert(self.emitted().take(old(self).emitted().len() as int) =~= old(self).emitted());
        proof {
            let ps = old(self).labels().pending();
            let ps2 = self.labels().pending();
            assert(ps2.drop_last() =~= ps);
            assert(ps2.last() == (label.0, at));
            assert forall|k: int| k != label.0 implies self.labels().waiting(k) == old(self).labels().waiting(k) by {
                assert(ps2.drop_last() =~= ps);
            }
        }
    }
}

/// The expression an argument passes.
pub open spec fn arg_expr(a: CallArg) -> AstNode {
    match a {
        CallArg::Positional(e) => e,
        CallArg::Named { value, .. } => value,
    }
}

/// The index of the first named argument at or after `i`.
pub open spec fn first_named_arg_from(args: Seq<CallArg>, i: int) -> Option<int>
    decreases args.len() - i,
{
    if i < 0 || i >= args.len() {
        None
    } else if args[i] is Named {
        Some(i)
    } else {
        first_named_arg_from(args, i + 1)
    }
}

/// The index of the first `params` parameter at or after `i`.
pub open spec fn params_index_from(ps: Seq<CallParamSpec>, i: int) -> Option<int>
    decreases ps.len() - i,
{
    if i < 0 || i >= ps.len() {
        None
    } else if ps[i].is_params {
        Some(i)
    } else {
        params_index_from(ps, i + 1)
    }
}

/// The index of the first parameter called `name` at or after `i`.
pub open spec fn param_named_from(ps: Seq<CallParamSpec>, name: Seq<char>, i: int) -> Option<int>
    decreases ps.len() - i,
{
    if i < 0 || i >= ps.len() {
        None
    } else if ps[i].name@ == name {
        Some(i)
    } else {
        param_named_from(ps, name, i + 1)
    }
}

/// How the arguments read so far are assigned to the parameters of a callee.
pub struct ArgScan {
    /// For each parameter, the index of the argument that supplies it.
    pub ordered: Seq<Option<usize>>,
    pub saw_named: bool,
    /// The number of positional arguments given to parameters before `params`.
    pub positional: nat,
    /// The indices of the positional arguments packed into the `params` parameter.
    pub packed: Seq<usize>,
    /// The `params` parameter was given by name.
    pub params_by_name: bool,
}

/// An error message and where it is reported.
pub type ArgError = (Seq<char>, Span);

/// The number of parameters that positional arguments fill before `params` (all of
/// them when there is no `params` parameter).
pub open spec fn fixed_count(ps: Seq<CallParamSpec>) -> int {
    match params_index_from(ps, 0) {
        Some(k) => k,
        None => ps.len() as int,
    }
}

/// Reads the argument `a`, at index `j`, into the assignment `st`.
pub open spec fn scan_step(ps: Seq<CallParamSpec>, st: ArgScan, a: CallArg, j: int, callee: Seq<char>, span: Span)
    -> Result<ArgScan, ArgError> {
    match a {
        CallArg::Positional(_) => if st.saw_named {
            Err(("positional arguments cannot follow named arguments"@, span))
        } else if st.positional >= fixed_count(ps) {
            if params_index_from(ps, 0) is Some {
                Ok(ArgScan { packed: st.packed.push(j as usize), ..st })
            } else {
                Err((
                    "function `"@ + callee + "` expects "@ + decimal(ps.len()) + " argument(s), found at least "@
                        + decimal(st.positional + 1),
                    span,
                ))
            }
        } else {
            Ok(ArgScan {
                ordered: st.ordered.update(st.positional as int, Some(j as usize)),
                positional: st.positional + 1,
                ..st
            })
        },
        CallArg::Named { name, name_span, .. } => match param_named_from(ps, name@, 0) {
            None => Err(("unknown named argument `"@ + name@ + "` for `"@ + callee + "`"@, name_span)),
            Some(i) => if st.ordered[i] is Some {
                Err(("duplicate argument `"@ + name@ + "`"@, name_span))
            } else {
                Ok(ArgScan {
                    ordered: st.ordered.update(i, Some(j as usize)),
                    saw_named: true,
                    params_by_name: st.params_by_name || params_index_from(ps, 0) == Some(i),
                    ..st
                })
            },
        },
    }
}

/// Reads the arguments `args`, left to right, into an assignment to the parameters `ps`.
pub open spec fn scan_args(ps: Seq<CallParamSpec>, args: Seq<CallArg>, callee: Seq<char>, span: Span) -> Result<ArgScan, ArgError>
    decreases args.len(),
{
    if args.len() == 0 {
        Ok(ArgScan {
            ordered: Seq::new(ps.len(), |i: int| None::<usize>),
            saw_named: false,
            positional: 0,
            packed: Seq::empty(),
            params_by_name: false,
        })
    } else {
        match scan_args(ps, args.drop_last(), callee, span) {
            Err(e) => Err(e),
            Ok(st) => scan_step(ps, st, args.last(), args.len() - 1, callee, span),
        }
    }
}

/// Parameter `i` takes the packed positional arguments.
pub open spec fn takes_packed(ps: Seq<CallParamSpec>, st: ArgScan, i: int) -> bool {
    params_index_from(ps, 0) == Some(i) && !st.params_by_name
}

/// The first parameter at or after `i` that gets no argument and has no default.
pub open spec fn first_missing_from(ps: Seq<CallParamSpec>, st: ArgScan, i: int) -> Option<int>
    decreases ps.len() - i,
{
    if i < 0 || i >= ps.len() {
        None
    } else if !takes_packed(ps, st, i) && st.ordered[i] is None && ps[i].default_value is None {
        Some(i)
    } else {
        first_missing_from(ps, st, i + 1)
    }
}

/// The assignment of the arguments `args` to the parameters `ps`, or why there is none.
pub open spec fn resolve_args(ps: Seq<CallParamSpec>, args: Seq<CallArg>, callee: Seq<char>, span: Span) -> Result<ArgScan, ArgError> {
    match scan_args(ps, args, callee, span) {
        Err(e) => Err(e),
        Ok(st) => if st.params_by_name && st.packed.len() > 0 {
            Err(("cannot use both packed positional arguments and explicit named `params` argument"@, span))
        } else {
            match first_missing_from(ps, st, 0) {
                Some(i) => Err(("missing required argument `"@ + ps[i].name@ + "` to `"@ + callee + "`"@, span)),
                None => Ok(st),
            }
        },
    }
}

/// `e` is the argument for parameter `i` under the assignment `st`: the packed arguments as
/// an array literal at `span`, the argument given for it, or else its default.
pub open spec fn placed_at(ps: Seq<CallParamSpec>, args: Seq<CallArg>, st: ArgScan, i: int, e: AstNode, span: Span) -> bool {
    if takes_packed(ps, st, i) {
        e matches AstNode::ArrayLiteral { elements, span: s } && s == span && elements@.len() == st.packed.len()
            && forall|k: int| 0 <= k < st.packed.len()
                ==> vstd::pervasive::cloned(arg_expr(args[st.packed[k] as int]), #[trigger] elements@[k])
    } else {
        match st.ordered[i] {
            Some(j) => vstd::pervasive::cloned(arg_expr(args[j as int]), e),
            None => ps[i].default_value matches Some(d) && vstd::pervasive::cloned(d, e),
        }
    }
}

/// The assignment is consistent with `n` arguments read for the parameters `ps`.
pub open spec fn scan_wf(ps: Seq<CallParamSpec>, st: ArgScan, n: int) -> bool {
    &&& st.ordered.len() == ps.len()
    &&& st.positional <= fixed_count(ps)
    &&& st.positional <= n
    &&& forall|i: int| 0 <= i < ps.len() && (#[trigger] st.ordered[i]) is Some ==> st.ordered[i]->0 < n
    &&& forall|k: int| 0 <= k < st.packed.len() ==> #[trigger] st.packed[k] < n
}

proof fn lemma_params_index_bounds(ps: Seq<CallParamSpec>, i: int)
    requires
        0 <= i,
    ensures
        params_index_from(ps, i) matches Some(k) ==> i <= k < ps.len() && ps[k].is_params,
        params_index_from(ps, i) is None ==> forall|k: int| i <= k < ps.len() ==> !ps[k].is_params,
    decreases ps.len() - i,
{
    if i < ps.len() && !ps[i].is_params {
        lemma_params_index_bounds(ps, i + 1);
    }
}

proof fn lemma_param_named_bounds(ps: Seq<CallParamSpec>, name: Seq<char>, i: int)
    requires
        0 <= i,
    ensures
        param_named_from(ps, name, i) matches Some(k) ==> i <= k < ps.len() && ps[k].name@ == name,
        param_named_from(ps, name, i) is None ==> forall|k: int| i <= k < ps.len() ==> ps[k].name@ != name,
    decreases ps.len() - i,
{
    if i < ps.len() && ps[i].name@ != name {
        lemma_param_named_bounds(ps, name, i + 1);
    }
}

/// Reading the arguments keeps the assignment consistent.
proof fn lemma_scan_wf(ps: Seq<CallParamSpec>, args: Seq<CallArg>, callee: Seq<char>, span: Span)
    ensures
        scan_args(ps, args, callee, span) matches Ok(st) ==> scan_wf(ps, st, args.len() as int),
    decreases args.len(),
{
    lemma_params_index_bounds(ps, 0);
    if args.len() > 0 {
        lemma_scan_wf(ps, args.drop_last(), callee, span);
        match args.last() {
            CallArg::Named { name, .. } => lemma_param_named_bounds(ps, name@, 0),
            _ => {},
        }
    }
}

/// Once reading the first `k` arguments fails, reading all of them fails the same way.
proof fn lemma_scan_error_persists(ps: Seq<CallParamSpec>, args: Seq<CallArg>, k: int, callee: Seq<char>, span: Span)
    requires
        0 <= k <= args.len(),
        scan_args(ps, args.take(k), callee, span) is Err,
    ensures
        scan_args(ps, args, callee, span) == scan_args(ps, args.take(k), callee, span),
    decreases args.len() - k,
{
    if k < args.len() {
        assert(args.take(k + 1).drop_last() =~= args.take(k));
        lemma_scan_error_persists(ps, args, k + 1, callee, span);
    } else {
        assert(args.take(k) =~= args);
    }
}

/// The expression an argument passes.
fn call_arg_expr(a: &CallArg) -> (r: &AstNode)
    ensures
        *r == arg_expr(*a),
{
    match a {
        CallArg::Positional(e) => e,
        CallArg::Named { value, .. } => value,
    }
}

/// The error at `span` whose message is the three parts in order.
fn message_error3(a: &str, b: &str, c: &str, span: Span) -> (r: CompileError)
    ensures
        r.message@ == a@ + b@ + c@,
        r.span == Some(span),
{
    let mut out: Vec<char> = Vec::new();
    push_str(&mut out, a);
    push_str(&mut out, b);
    push_str(&mut out, c);
    assert(out@ =~= a@ + b@ + c@);
    CompileError::new(chars_to_string(out.as_slice()), Some(span))
}

/// The error at `span` whose message is the five parts in order.
fn message_error(a: &str, b: &str, c: &str, d: &str, e: &str, span: Span) -> (r: CompileError)
    ensures
        r.message@ == a@ + b@ + c@ + d@ + e@,
        r.span == Some(span),
{
    let mut out: Vec<char> = Vec::new();
    push_str(&mut out, a);
    push_str(&mut out, b);
    push_str(&mut out, c);
    push_str(&mut out, d);
    push_str(&mut out, e);
    assert(out@ =~= a@ + b@ + c@ + d@ + e@);
    CompileError::new(chars_to_string(out.as_slice()), Some(span))
}

impl<'a> FnGen<'a> {
    /// The arguments of a call to `callee`, one per declared parameter: each named argument
    /// goes to the parameter of that name, positional ones fill the parameters in order, extra
    /// positional ones are packed into an array for a `params` parameter, and parameters left
    /// out take their defaults. A callee without a declaration takes its positional arguments
    /// as they are.
    pub fn resolve_call_arguments(&self, callee: &str, arguments: &[CallArg], span: Span) -> (r: Result<Vec<AstNode>, CompileError>)
        requires
            arguments@.len() < usize::MAX,
        ensures
            match entry_value(self.call_spec_table(), callee@) {
                None => match first_named_arg_from(arguments@, 0) {
                    Some(j) => arguments@[j] matches CallArg::Named { name, name_span, .. } && r matches Err(e)
                        && e.message@ == "unknown named argument `"@ + name@ + "` for `"@ + callee@ + "`"@
                        && e.span == Some(name_span),
                    None => r matches Ok(out) && out@.len() == arguments@.len()
                        && forall|j: int| 0 <= j < out@.len()
                            ==> vstd::pervasive::cloned(arg_expr(arguments@[j]), #[trigger] out@[j]),
                },
                Some(ps) => match resolve_args(ps@, arguments@, callee@, span) {
                    Err((m, s)) => r matches Err(e) && e.message@ == m && e.span == Some(s),
                    Ok(st) => r matches Ok(out) && out@.len() == ps@.len()
                        && forall|i: int| 0 <= i < out@.len() ==> placed_at(ps@, arguments@, st, i, #[trigger] out@[i], span),
                },
            },
    {
        let spec_idx = find_entry(self.call_specs, callee);
        proof { lemma_entry_index(self.call_specs@, callee@); }
        let si = match spec_idx {
            Some(si) => si,
            None => {
                let mut out: Vec<AstNode> = Vec::new();
                let mut j: usize = 0;
                while j < arguments.len()
                    invariant
                        j <= arguments@.len(),
                        entry_value(self.call_spec_table(), callee@) is None,
                        first_named_arg_from(arguments@, 0) == first_named_arg_from(arguments@, j as int),
                        out@.len() == j,
                        forall|k: int| 0 <= k < j ==> vstd::pervasive::cloned(arg_expr(arguments@[k]), #[trigger] out@[k]),
                    decreases arguments@.len() - j,
                {
                    match &arguments[j] {
                        CallArg::Positional(expr) => {
                            out.push(expr.clone());
                        },
                        CallArg::Named { name, name_span, .. } => {
                            assert(first_named_arg_from(arguments@, j as int) == Some(j as int));
                            return Err(message_error("unknown named argument `", name.as_str(), "` for `", callee, "`", *name_span));
                        },
                    }
                    j += 1;
                }
                return Ok(out);
            },
        };
        let spec = &self.call_specs[si].1;
        let ghost ps = spec@;
        let ghost args = arguments@;
        assert(entry_value(self.call_spec_table(), callee@) == Some(*spec));

        let mut params_index: Option<usize> = None;
        let mut p: usize = 0;
        while p < spec.len()
            invariant_except_break
                params_index is None,
            invariant
                ps == spec@,
                p <= ps.len(),
                params_index_from(ps, 0) == params_index_from(ps, p as int),
            ensures
                params_index matches Some(k) ==> params_index_from(ps, 0) == Some(k as int),
                params_index is None ==> p == ps.len(),
            decreases ps.len() - p,
        {
            if spec[p].is_params {
                params_index = Some(p);
                break;
            }
            p += 1;
        }
        proof { lemma_params_index_bounds(ps, 0); }
        assert(params_index matches Some(k) ==> params_index_from(ps, 0) == Some(k as int));
        assert(params_index is None ==> params_index_from(ps, 0) is None);
        let fixed = match params_index {
            Some(k) => k,
            None => spec.len(),
        };

        let mut ordered: Vec<Option<usize>> = Vec::new();
        while ordered.len() < spec.len()
            invariant
                ps == spec@,
                ordered@.len() <= ps.len(),
                forall|i: int| 0 <= i < ordered@.len() ==> ordered@[i] is None,
            decreases ps.len() - ordered@.len(),
        {
            ordered.push(None);
        }
        let mut saw_named = false;
        let mut positional_idx: usize = 0;
        let mut packed: Vec<usize> = Vec::new();
        let mut params_explicit_by_name = false;
        let mut j: usize = 0;
        assert(args.take(0) =~= Seq::<CallArg>::empty());
        assert(ordered@ =~= Seq::new(ps.len(), |i: int| None::<usize>));
        while j < arguments.len()
            invariant
                ps == spec@,
                args == arguments@,
                entry_value(self.call_spec_table(), callee@) == Some(*spec),
                args.len() < usize::MAX,
                j <= args.len(),
                fixed == fixed_count(ps),
                params_index matches Some(k) ==> params_index_from(ps, 0) == Some(k as int),
                params_index is None ==> params_index_from(ps, 0) is None,
                scan_args(ps, args.take(j as int), callee@, span) == Ok::<ArgScan, ArgError>(ArgScan {
                    ordered: ordered@,
                    saw_named,
                    positional: positional_idx as nat,
                    packed: packed@,
                    params_by_name: params_explicit_by_name,
                }),
            decreases args.len() - j,
        {
            proof {
                assert(args.take(j + 1).drop_last() =~= args.take(j as int));
                assert(args.take(j + 1).last() == args[j as int]);
                lemma_scan_wf(ps, args.take(j as int), callee@, span);
                lemma_params_index_bounds(ps, 0);
            }
            match &arguments[j] {
                CallArg::Positional(_) => {
                    if saw_named {
                        proof { lemma_scan_error_persists(ps, args, j + 1, callee@, span); }
                        return Err(CompileError::new(lit("positional arguments cannot follow named arguments"), Some(span)));
                    }
                    if positional_idx >= fixed {
                        if params_index.is_some() {
                            packed.push(j);
                        } else {
                            let mut out: Vec<char> = Vec::new();
                            push_str(&mut out, "function `");
                            push_str(&mut out, callee);
                            push_str(&mut out, "` expects ");
                            push_decimal(&mut out, spec.len());
                            push_str(&mut out, " argument(s), found at least ");
                            push_decimal(&mut out, positional_idx + 1);
                            proof { lemma_scan_error_persists(ps, args, j + 1, callee@, span); }
                            assert(out@ =~= "function `"@ + callee@ + "` expects "@ + decimal(ps.len())
                                + " argument(s), found at least "@ + decimal(positional_idx as nat + 1));
                            return Err(CompileError::new(chars_to_string(out.as_slice()), Some(span)));
                        }
                    } else {
                        ordered.set(positional_idx, Some(j));
                        positional_idx += 1;
                    }
                },
                CallArg::Named { name, name_span, .. } => {
                    saw_named = true;
                    let mut i: usize = 0;
                    let mut found: Option<usize> = None;
                    while i < spec.len()
                        invariant_except_break
                            found is None,
                        invariant
                            ps == spec@,
                            i <= ps.len(),
                            param_named_from(ps, name@, 0) == param_named_from(ps, name@, i as int),
                        ensures
                            found matches Some(k) ==> param_named_from(ps, name@, 0) == Some(k as int),
                            found is None ==> i == ps.len(),
                        decreases ps.len() - i,
                    {
                        if str_is(&spec[i].name, name.as_str()) {
                            found = Some(i);
                            break;
                        }
                        i += 1;
                    }
                    proof { lemma_param_named_bounds(ps, name@, 0); }
                    let i = match found {
                        Some(i) => i,
                        None => {
                            proof { lemma_scan_error_persists(ps, args, j + 1, callee@, span); }
                            return Err(message_error("unknown named argument `", name.as_str(), "` for `", callee, "`", *name_span));
                        },
                    };
                    if ordered[i].is_some() {
                        proof { lemma_scan_error_persists(ps, args, j + 1, callee@, span); }
                        return Err(message_error3("duplicate argument `", name.as_str(), "`", *name_span));
                    }
                    if params_index == Some(i) {
                        params_explicit_by_name = true;
                    }
                    ordered.set(i, Some(j));
                },
            }
            j += 1;
        }
        assert(args.take(args.len() as int) =~= args);
        let ghost st = ArgScan {
            ordered: ordered@,
            saw_named,
            positional: positional_idx as nat,
            packed: packed@,
            params_by_name: params_explicit_by_name,
        };
        proof { lemma_scan_wf(ps, args, callee@, span); }

        if params_explicit_by_name && packed.len() > 0 {
            return Err(CompileError::new(
                lit("cannot use both packed positional arguments and explicit named `params` argument"),
                Some(span),
            ));
        }

        let mut out: Vec<AstNode> = Vec::new();
        let mut i: usize = 0;
        while i < spec.len()
            invariant
                ps == spec@,
                args == arguments@,
                entry_value(self.call_spec_table(), callee@) == Some(*spec),
                resolve_args(ps, args, callee@, span) == match first_missing_from(ps, st, 0) {
                    Some(m) => Err(("missing required argument `"@ + ps[m].name@ + "` to `"@ + callee@ + "`"@, span)),
                    None => Ok::<ArgScan, ArgError>(st),
                },
                i <= ps.len(),
                scan_wf(ps, st, args.len() as int),
                st.ordered == ordered@,
                st.packed == packed@,
                st.params_by_name == params_explicit_by_name,
                params_index matches Some(k) ==> params_index_from(ps, 0) == Some(k as int),
                params_index is None ==> params_index_from(ps, 0) is None,
                first_missing_from(ps, st, 0) == first_missing_from(ps, st, i as int),
                out@.len() == i,
                forall|k: int| 0 <= k < i ==> placed_at(ps, args, st, k, #[trigger] out@[k], span),
            decreases ps.len() - i,
        {
            if params_index == Some(i) && !params_explicit_by_name {
                let mut elements: Vec<AstNode> = Vec::new();
                let mut k: usize = 0;
                while k < packed.len()
                    invariant
                        args == arguments@,
                        scan_wf(ps, st, args.len() as int),
                        st.packed == packed@,
                        k <= packed@.len(),
                        elements@.len() == k,
                        forall|m: int| 0 <= m < k
                            ==> vstd::pervasive::cloned(arg_expr(args[packed@[m] as int]), #[trigger] elements@[m]),
                    decreases packed@.len() - k,
                {
                    assert(packed@[k as int] < args.len());
                    elements.push(call_arg_expr(&arguments[packed[k]]).clone());
                    k += 1;
                }
                out.push(AstNode::ArrayLiteral { elements, span });
            } else {
                match ordered[i] {
                    Some(a) => {
                        assert(a < args.len());
                        out.push(call_arg_expr(&arguments[a]).clone());
                    },
                    None => match &spec[i].default_value {
                        Some(d) => {
                            out.push(d.clone());
                        },
                        None => {
                            return Err(message_error("missing required argument `", spec[i].name.as_str(), "` to `", callee, "`", span));
                        },
                    },
                }
            }
            i += 1;
        }
        Ok(out)
    }
}

/// A name just declared in the innermost scope resolves to the slot it was declared at,
/// whatever outer scopes and globals hold.
pub proof fn lemma_declared_name_resolves(
    ss: Seq<Seq<(String, u32)>>,
    gs: Seq<(String, u32)>,
    name: String,
    slot: u32,
)
    requires
        ss.len() > 0,
    ensures
        var_slot_of(ss.drop_last().push(ss.last().push((name, slot))), gs, name@)
            == Some(VarSlot { kind: VarSlotKind::Local, slot }),
{
    let ss2 = ss.drop_last().push(ss.last().push((name, slot)));
    assert(ss2.last() == ss.last().push((name, slot)));
    assert(ss2.last().last().0@ == name@);
}

/// Every name `names` holds resolves in the scopes `ss` or the globals `gs`.
pub open spec fn all_resolve(names: Seq<String>, ss: Seq<Seq<(String, u32)>>, gs: Seq<(String, u32)>) -> bool {
    forall|k: int| 0 <= k < names.len() ==> var_slot_of(ss, gs, (#[trigger] names[k])@) is Some
}

proof fn lemma_known_names(p: Pattern, ss: Seq<Seq<(String, u32)>>, gs: Seq<(String, u32)>)
    requires
        all_resolve(pattern_names(p), ss, gs),
    ensures
        first_unknown(p, ss, gs) is None,
    decreases p, 0nat,
{
    match p {
        Pattern::Binding { name, .. } => {
            assert(pattern_names(p)[0] == name);
        },
        Pattern::Tuple { elements, .. } => lemma_known_elems(elements@, ss, gs),
        Pattern::Array { elements, .. } => lemma_known_elems(elements@, ss, gs),
        Pattern::Struct { fields, .. } => lemma_known_fields(fields@, ss, gs),
        Pattern::EnumVariant { payloads, .. } => lemma_known_payloads(payloads@, ss, gs),
        _ => {},
    }
}

proof fn lemma_known_elems(es: Seq<PatternElem>, ss: Seq<Seq<(String, u32)>>, gs: Seq<(String, u32)>)
    requires
        all_resolve(elem_names(es), ss, gs),
    ensures
        elems_unknown(es, ss, gs) is None,
    decreases es, 1nat,
{
    if es.len() > 0 {
        let init = elem_names(es.drop_last());
        assert forall|k: int| 0 <= k < init.len() implies var_slot_of(ss, gs, (#[trigger] init[k])@) is Some by {
            assert(elem_names(es)[k] == init[k]);
        }
        lemma_known_elems(es.drop_last(), ss, gs);
        match es.last() {
            PatternElem::Pattern(q) => {
                let tail = pattern_names(q);
                assert forall|k: int| 0 <= k < tail.len() implies var_slot_of(ss, gs, (#[trigger] tail[k])@) is Some by {
                    assert(elem_names(es)[init.len() + k] == tail[k]);
                }
                lemma_known_names(q, ss, gs);
            },
            PatternElem::Rest(_) => {},
        }
    }
}

proof fn lemma_known_fields(fs: Seq<StructPatternField>, ss: Seq<Seq<(String, u32)>>, gs: Seq<(String, u32)>)
    requires
        all_resolve(field_names(fs), ss, gs),
    ensures
        fields_unknown(fs, ss, gs) is None,
    decreases fs, 1nat,
{
    if fs.len() > 0 {
        let init = field_names(fs.drop_last());
        let tail = pattern_names(fs.last().pattern);
        assert forall|k: int| 0 <= k < init.len() implies var_slot_of(ss, gs, (#[trigger] init[k])@) is Some by {
            assert(field_names(fs)[k] == init[k]);
        }
        assert forall|k: int| 0 <= k < tail.len() implies var_slot_of(ss, gs, (#[trigger] tail[k])@) is Some by {
            assert(field_names(fs)[init.len() + k] == tail[k]);
        }
        lemma_known_fields(fs.drop_last(), ss, gs);
        lemma_known_names(fs.last().pattern, ss, gs);
    }
}

proof fn lemma_known_payloads(ps: Seq<Pattern>, ss: Seq<Seq<(String, u32)>>, gs: Seq<(String, u32)>)
    requires
        all_resolve(payload_names(ps), ss, gs),
    ensures
        payloads_unknown(ps, ss, gs) is None,
    decreases ps, 1nat,
{
    if ps.len() > 0 {
        let init = payload_names(ps.drop_last());
        let tail = pattern_names(ps.last());
        assert forall|k: int| 0 <= k < init.len() implies var_slot_of(ss, gs, (#[trigger] init[k])@) is Some by {
            assert(payload_names(ps)[k] == init[k]);
        }
        assert forall|k: int| 0 <= k < tail.len() implies var_slot_of(ss, gs, (#[trigger] tail[k])@) is Some by {
            assert(payload_names(ps)[init.len() + k] == tail[k]);
        }
        lemma_known_payloads(ps.drop_last(), ss, gs);
        lemma_known_names(ps.last(), ss, gs);
    }
}

/// Once a pattern's names are declared in the innermost scope (at any slots), storing a
/// value into that pattern never meets an unknown variable.
pub proof fn lemma_declared_pattern_stores(p: Pattern, ss: Seq<Seq<(String, u32)>>, gs: Seq<(String, u32)>, start: nat)
    requires
        ss.len() > 0,
    ensures
        first_unknown(p, ss.drop_last().push(ss.last() + numbered(pattern_names(p), start)), gs) is None,
{
    let names = pattern_names(p);
    let top = ss.last() + numbered(names, start);
    let ss2 = ss.drop_last().push(top);
    assert(ss2.last() == top);
    assert forall|k: int| 0 <= k < names.len() implies var_slot_of(ss2, gs, (#[trigger] names[k])@) is Some by {
        let i = ss.last().len() + k;
        assert(top[i].0 == names[k]);
        lemma_entry_index(top, names[k]@);
    }
    lemma_known_names(p, ss2, gs);
}
} // verus!
