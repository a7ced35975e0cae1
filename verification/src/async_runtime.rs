//! Cooperative scheduler for the runtime's tasks: task states, a ready queue,
//! timers ordered by deadline, and the tasks waiting on each task.
//!
//! The scheduler is generic over the suspended-execution context `TCtx` and the
//! value `V` that a completed task holds.

use vstd::prelude::*;
use std::collections::{HashMap, VecDeque};
use crate::error::Span;
use vstd::seq_lib::to_multiset_insert;

verus! {

broadcast use {vstd::std_specs::hash::group_hash_axioms, vstd::seq_lib::group_to_multiset_ensures};

pub type TaskId = u64;

/// A runtime failure, with where it happened when known.
#[derive(Debug)]
pub struct RuntimeError {
    pub message: String,
    pub span: Option<Span>,
}

impl RuntimeError {
    pub fn new(message: String, span: Option<Span>) -> (e: Self)
        ensures
            e.message@ == message@,
            e.span == span,
    {
        RuntimeError { message, span }
    }
}

#[derive(Debug)]
pub enum TaskState<TCtx, V> {
    Ready(TCtx),
    WaitingOn { ctx: TCtx, awaited: TaskId },
    SleepingUntil { ctx: TCtx, deadline_ms: u64 },
    Completed(V),
    Failed(RuntimeError),
}

/// Timer entries `(deadline_ms, task)` are ordered by deadline, then by task.
pub open spec fn timer_le(a: (u64, TaskId), b: (u64, TaskId)) -> bool {
    a.0 < b.0 || (a.0 == b.0 && a.1 <= b.1)
}

/// The timer queue is kept in ascending order, so its first entry is the earliest.
pub open spec fn timers_sorted(s: Seq<(u64, TaskId)>) -> bool {
    forall|i: int, j: int| 0 <= i < j < s.len() ==> timer_le(#[trigger] s[i], #[trigger] s[j])
}

/// Waking the tasks listed in `ws` (in order) after task `id` finished: each one that is
/// still waiting on `id` becomes ready again and joins the end of the ready queue.
pub open spec fn wake_waiters<TCtx, V>(
    tasks: Map<TaskId, TaskState<TCtx, V>>,
    ready: Seq<TaskId>,
    ws: Seq<TaskId>,
    id: TaskId,
) -> (Map<TaskId, TaskState<TCtx, V>>, Seq<TaskId>)
    decreases ws.len(),
{
    if ws.len() == 0 {
        (tasks, ready)
    } else {
        let (t, r) = wake_waiters(tasks, ready, ws.drop_last(), id);
        let w = ws.last();
        if t.contains_key(w) {
            match t[w] {
                TaskState::WaitingOn { ctx, awaited } =>
                    if awaited == id { (t.insert(w, TaskState::Ready(ctx)), r.push(w)) } else { (t, r) },
                _ => (t, r),
            }
        } else {
            (t, r)
        }
    }
}

/// In `tasks`, task `w` is parked until task `id` finishes.
pub open spec fn waits_on_in<TCtx, V>(tasks: Map<TaskId, TaskState<TCtx, V>>, w: TaskId, id: TaskId) -> bool {
    tasks.contains_key(w) && (tasks[w] matches TaskState::WaitingOn { awaited, .. } && awaited == id)
}

/// What the expired timer of task `tid` does: a task sleeping until at most `now`
/// becomes ready; one sleeping past `now` keeps a timer for its own deadline;
/// any other task is left alone.
pub open spec fn wake_one<TCtx, V>(
    tasks: Map<TaskId, TaskState<TCtx, V>>,
    ready: Seq<TaskId>,
    tid: TaskId,
    now: u64,
) -> (Map<TaskId, TaskState<TCtx, V>>, Seq<TaskId>, Option<(u64, TaskId)>) {
    if tasks.contains_key(tid) {
        match tasks[tid] {
            TaskState::SleepingUntil { ctx, deadline_ms } =>
                if deadline_ms <= now {
                    (tasks.insert(tid, TaskState::Ready(ctx)), ready.push(tid), None)
                } else {
                    (tasks, ready, Some((deadline_ms, tid)))
                },
            _ => (tasks, ready, None),
        }
    } else {
        (tasks, ready, None)
    }
}

/// Handling the expired timer entries `due` in order: the tasks, the ready queue, and
/// the timers to put back.
pub open spec fn wake_due<TCtx, V>(
    tasks: Map<TaskId, TaskState<TCtx, V>>,
    ready: Seq<TaskId>,
    due: Seq<(u64, TaskId)>,
    now: u64,
) -> (Map<TaskId, TaskState<TCtx, V>>, Seq<TaskId>, Seq<(u64, TaskId)>)
    decreases due.len(),
{
    if due.len() == 0 {
        (tasks, ready, Seq::empty())
    } else {
        let (t, r, kept) = wake_due(tasks, ready, due.drop_last(), now);
        let (t2, r2, k) = wake_one(t, r, due.last().1, now);
        (t2, r2, match k { Some(e) => kept.push(e), None => kept })
    }
}

/// How many timer entries at the front of `s` have expired at `now`.
pub open spec fn due_len(s: Seq<(u64, TaskId)>, now: u64) -> nat
    decreases s.len(),
{
    if s.len() == 0 {
        0
    } else if s[0].0 <= now {
        1 + due_len(s.drop_first(), now)
    } else {
        0
    }
}

/// Handling expired timers wakes each task that sleeps until at most `now` and has an
/// entry among them: it becomes ready with its context and is in the ready queue; a task
/// with no entry among them keeps its state. The ready queue only grows at its end.
pub proof fn lemma_wake_due_task<TCtx, V>(
    tasks: Map<TaskId, TaskState<TCtx, V>>,
    ready: Seq<TaskId>,
    due: Seq<(u64, TaskId)>,
    now: u64,
    tid: TaskId,
    ctx: TCtx,
    deadline: u64,
)
    requires
        tasks.contains_key(tid),
        tasks[tid] == (TaskState::<TCtx, V>::SleepingUntil { ctx, deadline_ms: deadline }),
        deadline <= now,
    ensures
        wake_due(tasks, ready, due, now).0.contains_key(tid),
        wake_due(tasks, ready, due, now).1.len() >= ready.len(),
        wake_due(tasks, ready, due, now).1.take(ready.len() as int) == ready,
        (exists|i: int| 0 <= i < due.len() && (#[trigger] due[i]).1 == tid) ==> {
            &&& wake_due(tasks, ready, due, now).0[tid] == TaskState::<TCtx, V>::Ready(ctx)
            &&& wake_due(tasks, ready, due, now).1.contains(tid)
        },
        !(exists|i: int| 0 <= i < due.len() && (#[trigger] due[i]).1 == tid)
            ==> wake_due(tasks, ready, due, now).0[tid] == tasks[tid],
    decreases due.len(),
{
    if due.len() > 0 {
        let pre = due.drop_last();
        lemma_wake_due_task(tasks, ready, pre, now, tid, ctx, deadline);
        let (t, r, kept) = wake_due(tasks, ready, pre, now);
        let (t2, r2, k) = wake_one(t, r, due.last().1, now);
        assert(r2.take(r.len() as int) == r);
        assert(r2.take(ready.len() as int) =~= r.take(ready.len() as int));
        if exists|i: int| 0 <= i < pre.len() && (#[trigger] pre[i]).1 == tid {
            let i = choose|i: int| 0 <= i < pre.len() && (#[trigger] pre[i]).1 == tid;
            assert(due[i].1 == tid);
            assert(r.contains(tid));
            let w = choose|w: int| 0 <= w < r.len() && r[w] == tid;
            assert(r2[w] == tid);
        }
        if exists|i: int| 0 <= i < due.len() && (#[trigger] due[i]).1 == tid {
            if !(exists|i: int| 0 <= i < pre.len() && (#[trigger] pre[i]).1 == tid) {
                let i = choose|i: int| 0 <= i < due.len() && (#[trigger] due[i]).1 == tid;
                if i < pre.len() {
                    assert(pre[i].1 == tid);
                }
                assert(due.last().1 == tid);
                assert(r2[r.len() as int] == tid);
            }
        } else {
            assert forall|i: int| 0 <= i < pre.len() implies (#[trigger] pre[i]).1 != tid by {
                assert(due[i] == pre[i]);
            }
            assert(due[due.len() - 1].1 != tid);
        }
    }
}

/// Handling expired timers puts no task to sleep: a task that sleeps afterwards slept
/// the same way before.
pub proof fn lemma_wake_due_sleepers<TCtx, V>(
    tasks: Map<TaskId, TaskState<TCtx, V>>,
    ready: Seq<TaskId>,
    due: Seq<(u64, TaskId)>,
    now: u64,
    id: TaskId,
)
    ensures
        wake_due(tasks, ready, due, now).0.contains_key(id) && wake_due(tasks, ready, due, now).0[id] is SleepingUntil
            ==> tasks.contains_key(id) && tasks[id] == wake_due(tasks, ready, due, now).0[id],
    decreases due.len(),
{
    if due.len() > 0 {
        lemma_wake_due_sleepers(tasks, ready, due.drop_last(), now, id);
    }
}

/// Waking the waiters of a task puts no task to sleep: a task that sleeps afterwards
/// slept the same way before.
pub proof fn lemma_wake_waiters_sleepers<TCtx, V>(
    tasks: Map<TaskId, TaskState<TCtx, V>>,
    ready: Seq<TaskId>,
    ws: Seq<TaskId>,
    awaited: TaskId,
    id: TaskId,
)
    ensures
        wake_waiters(tasks, ready, ws, awaited).0.contains_key(id) && wake_waiters(tasks, ready, ws, awaited).0[id] is SleepingUntil
            ==> tasks.contains_key(id) && tasks[id] == wake_waiters(tasks, ready, ws, awaited).0[id],
    decreases ws.len(),
{
    if ws.len() > 0 {
        lemma_wake_waiters_sleepers(tasks, ready, ws.drop_last(), awaited, id);
    }
}

/// In a sorted timer queue, the entries due at `now` are exactly those whose deadline
/// has passed, they come first, earliest first, and every later entry lies in the future.
pub proof fn lemma_due_timers(s: Seq<(u64, TaskId)>, now: u64)
    requires
        timers_sorted(s),
    ensures
        due_len(s, now) <= s.len(),
        forall|i: int| 0 <= i < due_len(s, now) ==> (#[trigger] s[i]).0 <= now,
        forall|i: int| due_len(s, now) <= i < s.len() ==> (#[trigger] s[i]).0 > now,
        timers_sorted(s.take(due_len(s, now) as int)),
    decreases s.len(),
{
    if s.len() > 0 && s[0].0 <= now {
        let t = s.drop_first();
        assert(timers_sorted(t)) by {
            assert forall|i: int, j: int| 0 <= i < j < t.len() implies timer_le(#[trigger] t[i], #[trigger] t[j]) by {
                assert(timer_le(s[i + 1], s[j + 1]));
            }
        }
        lemma_due_timers(t, now);
        assert forall|i: int| 0 <= i < due_len(s, now) implies (#[trigger] s[i]).0 <= now by {
            if i > 0 {
                assert(s[i] == t[i - 1]);
            }
        }
        assert forall|i: int| due_len(s, now) <= i < s.len() implies (#[trigger] s[i]).0 > now by {
            assert(s[i] == t[i - 1]);
        }
    } else if s.len() > 0 {
        assert forall|i: int| 0 <= i < s.len() implies (#[trigger] s[i]).0 > now by {
            if i > 0 {
                assert(timer_le(s[0], s[i]));
            }
        }
    }
    let d = due_len(s, now) as int;
    assert forall|i: int, j: int| 0 <= i < j < s.take(d).len() implies
        timer_le(#[trigger] s.take(d)[i], #[trigger] s.take(d)[j]) by {
        assert(timer_le(s[i], s[j]));
    }
}

pub struct AsyncRuntime<TCtx, V> {
    next_id: TaskId,
    tasks: HashMap<TaskId, TaskState<TCtx, V>>,
    ready: VecDeque<TaskId>,
    timers: Vec<(u64, TaskId)>,
    waiters: HashMap<TaskId, Vec<TaskId>>,
}

impl<TCtx, V> AsyncRuntime<TCtx, V> {
    /// The id the next allocated task gets.
    pub closed spec fn next_task_id(&self) -> TaskId {
        self.next_id
    }

    /// The state of each known task.
    pub closed spec fn task_states(&self) -> Map<TaskId, TaskState<TCtx, V>> {
        self.tasks@
    }

    /// The ready queue, front first.
    pub closed spec fn ready_queue(&self) -> Seq<TaskId> {
        self.ready@
    }

    /// The pending timers `(deadline_ms, task)`.
    pub closed spec fn timer_queue(&self) -> Seq<(u64, TaskId)> {
        self.timers@
    }

    /// For each awaited task, the tasks that registered to wait on it, in order.
    pub closed spec fn waiting(&self) -> Map<TaskId, Seq<TaskId>> {
        self.waiters@.map_values(|v: Vec<TaskId>| v@)
    }

    /// The tasks registered as waiting on `id` (none when there is no list).
    pub open spec fn waiters_of(&self, id: TaskId) -> Seq<TaskId> {
        if self.waiting().contains_key(id) { self.waiting()[id] } else { Seq::empty() }
    }

    /// The timer queue is sorted.
    pub open spec fn wf(&self) -> bool {
        timers_sorted(self.timer_queue())
    }

    /// Every sleeping task has a timer entry for its own deadline.
    pub open spec fn sleepers_timed(&self) -> bool {
        forall|id: TaskId| #[trigger] self.task_states().contains_key(id) && self.task_states()[id] is SleepingUntil
            ==> self.timer_queue().contains((self.task_states()[id]->deadline_ms, id))
    }

    /// Task `w` is parked until task `id` finishes.
    pub open spec fn waits_on(&self, w: TaskId, id: TaskId) -> bool {
        waits_on_in(self.task_states(), w, id)
    }

    /// `id` holds a completed task.
    pub open spec fn completed(&self, id: TaskId) -> bool {
        self.task_states().contains_key(id) && self.task_states()[id] is Completed
    }

    pub fn new() -> (rt: Self)
        ensures
            rt.wf(),
            rt.next_task_id() == 1,
            rt.sleepers_timed(),
            rt.task_states() == Map::<TaskId, TaskState<TCtx, V>>::empty(),
            rt.ready_queue() == Seq::<TaskId>::empty(),
            rt.timer_queue() == Seq::<(u64, TaskId)>::empty(),
            rt.waiting() == Map::<TaskId, Seq<TaskId>>::empty(),
    {
        let rt = AsyncRuntime {
            next_id: 1,
            tasks: HashMap::new(),
            ready: VecDeque::new(),
            timers: Vec::new(),
            waiters: HashMap::new(),
        };
        assert(rt.waiting() =~= Map::<TaskId, Seq<TaskId>>::empty());
        rt
    }

    /// Hands out a fresh task id; ids count up from 1.
    pub fn alloc_id(&mut self) -> (id: TaskId)
        requires
            old(self).next_task_id() < u64::MAX,
        ensures
            old(self).sleepers_timed() ==> final(self).sleepers_timed(),
            id == old(self).next_task_id(),
            final(self).next_task_id() == id + 1,
            final(self).task_states() == old(self).task_states(),
            final(self).ready_queue() == old(self).ready_queue(),
            final(self).timer_queue() == old(self).timer_queue(),
            final(self).waiting() == old(self).waiting(),
            final(self).wf() == old(self).wf(),
    {
        let id = self.next_id;
        self.next_id = self.next_id + 1;
        id
    }

    /// Creates a ready task for `ctx` and queues it.
    pub fn spawn_ready(&mut self, ctx: TCtx) -> (id: TaskId)
        requires
            old(self).next_task_id() < u64::MAX,
        ensures
            old(self).sleepers_timed() ==> final(self).sleepers_timed(),
            id == old(self).next_task_id(),
            final(self).next_task_id() == id + 1,
            final(self).task_states() == old(self).task_states().insert(id, TaskState::Ready(ctx)),
            final(self).ready_queue() == old(self).ready_queue().push(id),
            final(self).timer_queue() == old(self).timer_queue(),
            final(self).waiting() == old(self).waiting(),
            final(self).wf() == old(self).wf(),
    {
        let id = self.alloc_id();
        self.tasks.insert(id, TaskState::Ready(ctx));
        self.ready.push_back(id);
        id
    }

    /// Creates a task for `ctx` that sleeps until `deadline_ms`.
    pub fn spawn_sleeping(&mut self, ctx: TCtx, deadline_ms: u64) -> (id: TaskId)
        requires
            old(self).wf(),
            old(self).next_task_id() < u64::MAX,
        ensures
            old(self).sleepers_timed() ==> final(self).sleepers_timed(),
            final(self).wf(),
            id == old(self).next_task_id(),
            final(self).next_task_id() == id + 1,
            final(self).task_states() == old(self).task_states().insert(
                id,
                TaskState::SleepingUntil { ctx, deadline_ms },
            ),
            final(self).timer_queue().to_multiset() == old(self).timer_queue().to_multiset().insert((deadline_ms, id)),
            final(self).ready_queue() == old(self).ready_queue(),
            final(self).waiting() == old(self).waiting(),
    {
        let id = self.alloc_id();
        self.set_sleeping_until(id, ctx, deadline_ms);
        id
    }

    pub fn is_completed(&self, id: TaskId) -> (r: bool)
        ensures
            r == self.completed(id),
    {
        match self.tasks.get(&id) {
            Some(TaskState::Completed(_)) => true,
            _ => false,
        }
    }

    /// The value of a completed task.
    pub fn completed_value(&self, id: TaskId) -> (r: Option<&V>)
        ensures
            match r {
                Some(v) => self.completed(id) && self.task_states()[id] == TaskState::<TCtx, V>::Completed(*v),
                None => !self.completed(id),
            },
    {
        match self.tasks.get(&id) {
            Some(TaskState::Completed(v)) => Some(v),
            _ => None,
        }
    }

    /// Wakes, in order, the registered waiters of `id` that still wait on it, and
    /// drops the list.
    fn wake_waiters_of(&mut self, id: TaskId)
        ensures
            (final(self).task_states(), final(self).ready_queue())
                == wake_waiters(old(self).task_states(), old(self).ready_queue(), old(self).waiters_of(id), id),
            final(self).waiting() == old(self).waiting().remove(id),
            final(self).timer_queue() == old(self).timer_queue(),
            final(self).next_task_id() == old(self).next_task_id(),
            final(self).wf() == old(self).wf(),
    {
        let ghost t0 = self.tasks@;
        let ghost r0 = self.ready@;
        let ghost w0 = old(self).waiting();
        match self.waiters.remove(&id) {
            Some(ws) => {
                assert(self.waiting() =~= w0.remove(id));
                let mut i: usize = 0;
                while i < ws.len()
                    invariant
                        i <= ws@.len(),
                        ws@ == old(self).waiters_of(id),
                        (self.tasks@, self.ready@) == wake_waiters(t0, r0, ws@.subrange(0, i as int), id),
                        self.waiting() == w0.remove(id),
                        self.timers@ == old(self).timers@,
                        self.next_id == old(self).next_id,
                    decreases ws@.len() - i,
                {
                    let w = ws[i];
                    proof {
                        assert(ws@.subrange(0, i + 1).drop_last() == ws@.subrange(0, i as int));
                    }
                    let awaited_matches = match self.tasks.get(&w) {
                        Some(TaskState::WaitingOn { awaited, .. }) => *awaited == id,
                        _ => false,
                    };
                    if awaited_matches {
                        match self.tasks.remove(&w) {
                            Some(TaskState::WaitingOn { ctx, awaited }) => {
                                self.tasks.insert(w, TaskState::Ready(ctx));
                                self.ready.push_back(w);
                            },
                            Some(other) => {
                                self.tasks.insert(w, other);
                            },
                            None => {},
                        }
                    }
                    i += 1;
                }
                assert(ws@.subrange(0, ws@.len() as int) == ws@);
            },
            None => {
                assert(self.waiting() =~= w0.remove(id));
            },
        }
    }

    /// Marks `id` failed and wakes the tasks waiting on it so they can see the failure.
    pub fn fail(&mut self, id: TaskId, err: RuntimeError)
        ensures
            old(self).sleepers_timed() ==> final(self).sleepers_timed(),
            (final(self).task_states(), final(self).ready_queue()) == wake_waiters(
                old(self).task_states().insert(id, TaskState::Failed(err)),
                old(self).ready_queue(),
                old(self).waiters_of(id),
                id,
            ),
            final(self).task_states()[id] == TaskState::<TCtx, V>::Failed(err),
            forall|i: int| 0 <= i < old(self).waiters_of(id).len()
                ==> !final(self).waits_on(#[trigger] old(self).waiters_of(id)[i], id),
            final(self).waiting() == old(self).waiting().remove(id),
            final(self).timer_queue() == old(self).timer_queue(),
            final(self).next_task_id() == old(self).next_task_id(),
            final(self).wf() == old(self).wf(),
    {
        let ghost ws = old(self).waiters_of(id);
        let ghost t1 = old(self).task_states().insert(id, TaskState::Failed(err));
        self.tasks.insert(id, TaskState::Failed(err));
        self.wake_waiters_of(id);
        proof {
            lemma_wake_waiters_keeps(t1, old(self).ready_queue(), ws, id, id);
            lemma_waiters_woken(t1, old(self).ready_queue(), ws, id);
            assert forall|t: TaskId| #[trigger] self.task_states().contains_key(t) && self.task_states()[t] is SleepingUntil
                && old(self).sleepers_timed()
                implies self.timer_queue().contains((self.task_states()[t]->deadline_ms, t)) by {
                lemma_wake_waiters_sleepers(t1, old(self).ready_queue(), ws, id, t);
                assert(old(self).task_states()[t] == self.task_states()[t]);
            }
        }
    }

    /// Records `value` as the result of `id` and wakes the tasks waiting on it.
    pub fn complete(&mut self, id: TaskId, value: V)
        ensures
            old(self).sleepers_timed() ==> final(self).sleepers_timed(),
            (final(self).task_states(), final(self).ready_queue()) == wake_waiters(
                old(self).task_states().insert(id, TaskState::Completed(value)),
                old(self).ready_queue(),
                old(self).waiters_of(id),
                id,
            ),
            final(self).task_states()[id] == TaskState::<TCtx, V>::Completed(value),
            forall|i: int| 0 <= i < old(self).waiters_of(id).len()
                ==> !final(self).waits_on(#[trigger] old(self).waiters_of(id)[i], id),
            final(self).completed(id),
            final(self).waiting() == old(self).waiting().remove(id),
            final(self).timer_queue() == old(self).timer_queue(),
            final(self).next_task_id() == old(self).next_task_id(),
            final(self).wf() == old(self).wf(),
    {
        let ghost ws = old(self).waiters_of(id);
        let ghost t1 = old(self).task_states().insert(id, TaskState::Completed(value));
        self.tasks.insert(id, TaskState::Completed(value));
        self.wake_waiters_of(id);
        proof {
            lemma_wake_waiters_keeps(t1, old(self).ready_queue(), ws, id, id);
            lemma_waiters_woken(t1, old(self).ready_queue(), ws, id);
            assert forall|t: TaskId| #[trigger] self.task_states().contains_key(t) && self.task_states()[t] is SleepingUntil
                && old(self).sleepers_timed()
                implies self.timer_queue().contains((self.task_states()[t]->deadline_ms, t)) by {
                lemma_wake_waiters_sleepers(t1, old(self).ready_queue(), ws, id, t);
                assert(old(self).task_states()[t] == self.task_states()[t]);
            }
        }
    }

    /// Takes the task at the front of the ready queue.
    pub fn pop_ready(&mut self) -> (r: Option<TaskId>)
        ensures
            old(self).sleepers_timed() ==> final(self).sleepers_timed(),
            match r {
                Some(id) => old(self).ready_queue().len() > 0 && id == old(self).ready_queue()[0]
                    && final(self).ready_queue() == old(self).ready_queue().drop_first(),
                None => old(self).ready_queue().len() == 0 && final(self).ready_queue() == old(self).ready_queue(),
            },
            final(self).task_states() == old(self).task_states(),
            final(self).timer_queue() == old(self).timer_queue(),
            final(self).waiting() == old(self).waiting(),
            final(self).next_task_id() == old(self).next_task_id(),
            final(self).wf() == old(self).wf(),
    {
        self.ready.pop_front()
    }

    /// Takes the context of `id` out when the task is ready; otherwise leaves it.
    pub fn take_ready_ctx(&mut self, id: TaskId) -> (r: Option<TCtx>)
        ensures
            old(self).sleepers_timed() ==> final(self).sleepers_timed(),
            old(self).task_states().contains_key(id) && old(self).task_states()[id] is Ready ==> {
                &&& r == Some(old(self).task_states()[id]->Ready_0)
                &&& final(self).task_states() == old(self).task_states().remove(id)
            },
            !(old(self).task_states().contains_key(id) && old(self).task_states()[id] is Ready) ==> {
                &&& r is None
                &&& final(self).task_states() == old(self).task_states()
            },
            final(self).ready_queue() == old(self).ready_queue(),
            final(self).timer_queue() == old(self).timer_queue(),
            final(self).waiting() == old(self).waiting(),
            final(self).next_task_id() == old(self).next_task_id(),
            final(self).wf() == old(self).wf(),
    {
        match self.tasks.remove(&id) {
            Some(TaskState::Ready(ctx)) => Some(ctx),
            Some(o) => {
                self.tasks.insert(id, o);
                assert(self.tasks@ =~= old(self).tasks@);
                None
            },
            None => None,
        }
    }

    /// Makes `id` ready with `ctx` and queues it.
    pub fn set_ready(&mut self, id: TaskId, ctx: TCtx)
        ensures
            old(self).sleepers_timed() ==> final(self).sleepers_timed(),
            final(self).task_states() == old(self).task_states().insert(id, TaskState::Ready(ctx)),
            final(self).ready_queue() == old(self).ready_queue().push(id),
            final(self).timer_queue() == old(self).timer_queue(),
            final(self).waiting() == old(self).waiting(),
            final(self).next_task_id() == old(self).next_task_id(),
            final(self).wf() == old(self).wf(),
    {
        self.tasks.insert(id, TaskState::Ready(ctx));
        self.ready.push_back(id);
    }

    /// Parks `id` until `awaited` finishes, registering it as a waiter of `awaited`.
    pub fn set_waiting_on(&mut self, id: TaskId, ctx: TCtx, awaited: TaskId)
        ensures
            old(self).sleepers_timed() ==> final(self).sleepers_timed(),
            final(self).task_states() == old(self).task_states().insert(id, TaskState::WaitingOn { ctx, awaited }),
            final(self).waiting() == old(self).waiting().insert(awaited, old(self).waiters_of(awaited).push(id)),
            final(self).ready_queue() == old(self).ready_queue(),
            final(self).timer_queue() == old(self).timer_queue(),
            final(self).next_task_id() == old(self).next_task_id(),
            final(self).wf() == old(self).wf(),
    {
        self.tasks.insert(id, TaskState::WaitingOn { ctx, awaited });
        let ghost before = old(self).waiting();
        let mut list = match self.waiters.remove(&awaited) {
            Some(l) => l,
            None => Vec::new(),
        };
        list.push(id);
        self.waiters.insert(awaited, list);
        assert(self.waiting() =~= before.insert(awaited, old(self).waiters_of(awaited).push(id)));
    }

    /// Puts `id` to sleep until `deadline_ms` and schedules its timer.
    pub fn set_sleeping_until(&mut self, id: TaskId, ctx: TCtx, deadline_ms: u64)
        requires
            old(self).wf(),
        ensures
            old(self).sleepers_timed() ==> final(self).sleepers_timed(),
            final(self).wf(),
            final(self).task_states() == old(self).task_states().insert(
                id,
                TaskState::SleepingUntil { ctx, deadline_ms },
            ),
            final(self).timer_queue().to_multiset() == old(self).timer_queue().to_multiset().insert((deadline_ms, id)),
            final(self).ready_queue() == old(self).ready_queue(),
            final(self).waiting() == old(self).waiting(),
            final(self).next_task_id() == old(self).next_task_id(),
    {
        self.tasks.insert(id, TaskState::SleepingUntil { ctx, deadline_ms });
        insert_timer(&mut self.timers, (deadline_ms, id));
        proof {
            broadcast use vstd::seq_lib::group_to_multiset_ensures;
            assert forall|t: TaskId| #[trigger] self.task_states().contains_key(t) && self.task_states()[t] is SleepingUntil
                && old(self).sleepers_timed()
                implies self.timer_queue().contains((self.task_states()[t]->deadline_ms, t)) by {
                let e = (self.task_states()[t]->deadline_ms, t);
                if t != id {
                    assert(old(self).timer_queue().contains(e));
                    assert(old(self).timer_queue().to_multiset().count(e) > 0);
                }
                assert(self.timer_queue().to_multiset().count(e) > 0);
            }
        }
    }

    /// Wakes the tasks whose timers have expired at `now_ms`, earliest first. A task
    /// that sleeps past `now_ms` (its timer is stale) gets a timer for its own deadline.
    pub fn wake_expired_timers(&mut self, now_ms: u64)
        requires
            old(self).wf(),
        ensures
            old(self).sleepers_timed() ==> final(self).sleepers_timed(),
            final(self).wf(),
            ({
                let due = old(self).timer_queue().take(due_len(old(self).timer_queue(), now_ms) as int);
                let rest = old(self).timer_queue().skip(due_len(old(self).timer_queue(), now_ms) as int);
                let (t, r, kept) = wake_due(old(self).task_states(), old(self).ready_queue(), due, now_ms);
                &&& final(self).task_states() == t
                &&& final(self).ready_queue() == r
                &&& final(self).timer_queue().to_multiset() == rest.to_multiset().add(kept.to_multiset())
            }),
            forall|i: int| 0 <= i < final(self).timer_queue().len() ==> (#[trigger] final(self).timer_queue()[i]).0 > now_ms,
            old(self).sleepers_timed() ==> forall|id: TaskId| #[trigger] old(self).task_states().contains_key(id)
                && old(self).task_states()[id] is SleepingUntil && old(self).task_states()[id]->deadline_ms <= now_ms
                ==> final(self).task_states().contains_key(id)
                    && final(self).task_states()[id] == TaskState::<TCtx, V>::Ready(old(self).task_states()[id]->SleepingUntil_ctx)
                    && final(self).ready_queue().contains(id),
            final(self).waiting() == old(self).waiting(),
            final(self).next_task_id() == old(self).next_task_id(),
    {
        let ghost s = self.timers@;
        let mut k: usize = 0;
        assert(s.skip(0) == s);
        while k < self.timers.len() && self.timers[k].0 <= now_ms
            invariant
                k <= s.len(),
                self.timers@ == s,
                due_len(s, now_ms) == k + due_len(s.skip(k as int), now_ms),
            decreases s.len() - k,
        {
            assert(s.skip(k as int).drop_first() == s.skip(k + 1));
            k += 1;
        }
        assert(due_len(s.skip(k as int), now_ms) == 0);
        let mut rest = self.timers.split_off(k);
        std::mem::swap(&mut self.timers, &mut rest);
        let due = rest;
        proof {
            assert(due@ == s.take(k as int));
            assert(self.timers@ == s.skip(k as int));
            assert forall|i: int| 0 <= i < self.timers@.len() implies (#[trigger] self.timers@[i]).0 > now_ms by {
                assert(timer_le(s[k as int], s[k + i]));
            }
            assert(timers_sorted(self.timers@)) by {
                assert forall|i: int, j: int| 0 <= i < j < self.timers@.len() implies
                    timer_le(#[trigger] self.timers@[i], #[trigger] self.timers@[j]) by {
                    assert(timer_le(s[k + i], s[k + j]));
                }
            }
        }
        let ghost rest_s = self.timers@;
        let ghost t0 = self.tasks@;
        let ghost r0 = self.ready@;
        let mut kept: Vec<(u64, TaskId)> = Vec::new();
        let mut j: usize = 0;
        while j < due.len()
            invariant
                j <= due@.len(),
                due@ == s.take(k as int),
                self.timers@ == rest_s,
                timers_sorted(self.timers@),
                forall|i: int| 0 <= i < self.timers@.len() ==> (#[trigger] self.timers@[i]).0 > now_ms,
                (self.tasks@, self.ready@, kept@) == wake_due(t0, r0, due@.take(j as int), now_ms),
                forall|i: int| 0 <= i < kept@.len() ==> (#[trigger] kept@[i]).0 > now_ms,
                self.waiters@ == old(self).waiters@,
                self.next_id == old(self).next_id,
            decreases due@.len() - j,
        {
            let tid = due[j].1;
            proof {
                assert(due@.take(j + 1).drop_last() == due@.take(j as int));
            }
            match self.tasks.remove(&tid) {
                Some(TaskState::SleepingUntil { ctx, deadline_ms }) => {
                    if deadline_ms <= now_ms {
                        self.tasks.insert(tid, TaskState::Ready(ctx));
                        self.ready.push_back(tid);
                    } else {
                        self.tasks.insert(tid, TaskState::SleepingUntil { ctx, deadline_ms });
                        kept.push((deadline_ms, tid));
                    }
                },
                Some(other) => {
                    self.tasks.insert(tid, other);
                },
                None => {},
            }
            proof {
                assert(self.tasks@ =~= wake_due(t0, r0, due@.take(j + 1), now_ms).0);
            }
            j += 1;
        }
        assert(due@.take(due@.len() as int) == due@);
        let ghost kept_s = kept@;
        let ghost t_end = self.tasks@;
        let ghost r_end = self.ready@;
        let mut m: usize = 0;
        assert(kept_s.take(0) =~= Seq::<(u64, TaskId)>::empty());
        assert(rest_s.to_multiset().add(kept_s.take(0).to_multiset()) =~= rest_s.to_multiset());
        while m < kept.len()
            invariant
                m <= kept@.len(),
                kept@ == kept_s,
                forall|i: int| 0 <= i < kept@.len() ==> (#[trigger] kept@[i]).0 > now_ms,
                timers_sorted(self.timers@),
                forall|i: int| 0 <= i < self.timers@.len() ==> (#[trigger] self.timers@[i]).0 > now_ms,
                self.timers@.to_multiset() == rest_s.to_multiset().add(kept_s.take(m as int).to_multiset()),
                self.tasks@ == t_end,
                self.ready@ == r_end,
                self.waiters@ == old(self).waiters@,
                self.next_id == old(self).next_id,
            decreases kept@.len() - m,
        {
            let e = kept[m];
            let ghost before = self.timers@;
            insert_timer(&mut self.timers, e);
            proof {
                assert(kept_s.take(m + 1) == kept_s.take(m as int).push(e));
                vstd::seq_lib::to_multiset_build(kept_s.take(m as int), e);
                assert forall|i: int| 0 <= i < self.timers@.len() implies (#[trigger] self.timers@[i]).0 > now_ms by {
                    assert(self.timers@.contains(self.timers@[i]));
                    assert(self.timers@.to_multiset().count(self.timers@[i]) > 0);
                    if self.timers@[i] != e {
                        assert(before.to_multiset().count(self.timers@[i]) > 0);
                        assert(before.contains(self.timers@[i]));
                    }
                }
            }
            m += 1;
        }
        assert(kept_s.take(kept_s.len() as int) == kept_s);
        proof {
            let due_s = s.take(due_len(s, now_ms) as int);
            lemma_due_timers(s, now_ms);
            if old(self).sleepers_timed() {
                assert forall|id: TaskId| #[trigger] t0.contains_key(id) && t0[id] is SleepingUntil && t0[id]->deadline_ms <= now_ms
                    implies t_end.contains_key(id) && t_end[id] == TaskState::<TCtx, V>::Ready(t0[id]->SleepingUntil_ctx)
                        && r_end.contains(id) by {
                    let d = t0[id]->deadline_ms;
                    assert(s.contains((d, id)));
                    let i = choose|i: int| 0 <= i < s.len() && s[i] == (d, id);
                    assert(i < due_len(s, now_ms));
                    assert(due_s[i] == (d, id));
                    lemma_wake_due_task(t0, r0, due_s, now_ms, id, t0[id]->SleepingUntil_ctx, d);
                }
                assert forall|id: TaskId| #[trigger] t_end.contains_key(id) && t_end[id] is SleepingUntil
                    implies self.timer_queue().contains((t_end[id]->deadline_ms, id)) by {
                    lemma_wake_due_sleepers(t0, r0, due_s, now_ms, id);
                    let d = t_end[id]->deadline_ms;
                    assert(t0[id] == t_end[id]);
                    if d <= now_ms {
                        assert(t_end[id] is Ready);
                    }
                    assert(s.contains((d, id)));
                    let i = choose|i: int| 0 <= i < s.len() && s[i] == (d, id);
                    assert(i >= due_len(s, now_ms));
                    assert(rest_s[i - due_len(s, now_ms)] == (d, id));
                    assert(rest_s.contains((d, id)));
                    broadcast use vstd::seq_lib::group_to_multiset_ensures;
                    assert(rest_s.to_multiset().count((d, id)) > 0);
                    assert(self.timers@.to_multiset().count((d, id)) > 0);
                }
            }
        }
    }

    /// The earliest timer deadline, if any timer is pending.
    pub fn next_timer_deadline_ms(&self) -> (r: Option<u64>)
        requires
            self.wf(),
        ensures
            match r {
                Some(d) => self.timer_queue().len() > 0 && d == self.timer_queue()[0].0
                    && forall|i: int| 0 <= i < self.timer_queue().len() ==> d <= (#[trigger] self.timer_queue()[i]).0,
                None => self.timer_queue().len() == 0,
            },
    {
        if self.timers.len() == 0 {
            None
        } else {
            proof {
                assert forall|i: int| 0 <= i < self.timers@.len() implies self.timers@[0].0 <= (#[trigger] self.timers@[i]).0 by {
                    if i > 0 {
                        assert(timer_le(self.timers@[0], self.timers@[i]));
                    }
                }
            }
            Some(self.timers[0].0)
        }
    }

    /// Takes the context (and awaited task) of `id` out when it is waiting; otherwise
    /// leaves it.
    pub fn take_waiting_ctx_if_awakened(&mut self, id: TaskId) -> (r: Option<(TCtx, TaskId)>)
        ensures
            old(self).sleepers_timed() ==> final(self).sleepers_timed(),
            (old(self).task_states().contains_key(id) && old(self).task_states()[id] is WaitingOn) ==> {
                &&& r == Some((old(self).task_states()[id]->WaitingOn_ctx, old(self).task_states()[id]->awaited))
                &&& final(self).task_states() == old(self).task_states().remove(id)
            },
            !(old(self).task_states().contains_key(id) && old(self).task_states()[id] is WaitingOn) ==> {
                &&& r is None
                &&& final(self).task_states() == old(self).task_states()
            },
            final(self).ready_queue() == old(self).ready_queue(),
            final(self).timer_queue() == old(self).timer_queue(),
            final(self).waiting() == old(self).waiting(),
            final(self).next_task_id() == old(self).next_task_id(),
            final(self).wf() == old(self).wf(),
    {
        match self.tasks.remove(&id) {
            Some(TaskState::WaitingOn { ctx, awaited }) => Some((ctx, awaited)),
            Some(o) => {
                self.tasks.insert(id, o);
                assert(self.tasks@ =~= old(self).tasks@);
                None
            },
            None => None,
        }
    }
}

/// Inserts a timer entry at its place in the sorted queue.
fn insert_timer(timers: &mut Vec<(u64, TaskId)>, e: (u64, TaskId))
    requires
        timers_sorted(old(timers)@),
    ensures
        timers_sorted(final(timers)@),
        final(timers)@.to_multiset() == old(timers)@.to_multiset().insert(e),
{
    let mut i: usize = 0;
    while i < timers.len() && (timers[i].0 < e.0 || (timers[i].0 == e.0 && timers[i].1 <= e.1))
        invariant
            i <= timers@.len(),
            timers@ == old(timers)@,
            forall|j: int| 0 <= j < i ==> timer_le(#[trigger] timers@[j], e),
        decreases timers@.len() - i,
    {
        i += 1;
    }
    let ghost s = timers@;
    timers.insert(i, e);
    proof {
        to_multiset_insert(s, i as int, e);
        assert forall|a: int, b: int| 0 <= a < b < timers@.len() implies
            timer_le(#[trigger] timers@[a], #[trigger] timers@[b]) by {
            if b < i {
                assert(timer_le(s[a], s[b]));
            } else if b == i {
            } else if a < i {
                assert(timer_le(s[a], e));
                assert(timer_le(s[i as int], s[b - 1]) || i == b - 1);
            } else if a == i {
                assert(timer_le(s[i as int], s[b - 1]) || i == b - 1);
            } else {
                assert(timer_le(s[a - 1], s[b - 1]));
            }
        }
    }
}

/// After the waiters of `id` are woken, none of them still waits on `id`.
pub proof fn lemma_waiters_woken<TCtx, V>(
    tasks: Map<TaskId, TaskState<TCtx, V>>,
    ready: Seq<TaskId>,
    ws: Seq<TaskId>,
    id: TaskId,
)
    ensures
        forall|i: int| 0 <= i < ws.len() ==> !waits_on_in(wake_waiters(tasks, ready, ws, id).0, #[trigger] ws[i], id),
    decreases ws.len(),
{
    if ws.len() > 0 {
        lemma_waiters_woken(tasks, ready, ws.drop_last(), id);
        let t = wake_waiters(tasks, ready, ws.drop_last(), id).0;
        assert forall|i: int| 0 <= i < ws.len() implies !waits_on_in(wake_waiters(tasks, ready, ws, id).0, #[trigger] ws[i], id) by {
            if i < ws.len() - 1 {
                assert(ws.drop_last()[i] == ws[i]);
            }
        }
    }
}

/// Waking the waiters of `id` changes only the listed tasks, and only appends to the
/// ready queue.
pub proof fn lemma_wake_waiters_frame<TCtx, V>(
    tasks: Map<TaskId, TaskState<TCtx, V>>,
    ready: Seq<TaskId>,
    ws: Seq<TaskId>,
    id: TaskId,
)
    ensures
        wake_waiters(tasks, ready, ws, id).0.dom() == tasks.dom(),
        forall|k: TaskId| !ws.contains(k) && tasks.contains_key(k)
            ==> #[trigger] wake_waiters(tasks, ready, ws, id).0[k] == tasks[k],
        ready.is_prefix_of(wake_waiters(tasks, ready, ws, id).1),
    decreases ws.len(),
{
    if ws.len() > 0 {
        lemma_wake_waiters_frame(tasks, ready, ws.drop_last(), id);
        let (t, r) = wake_waiters(tasks, ready, ws.drop_last(), id);
        assert forall|k: TaskId| !ws.contains(k) && tasks.contains_key(k)
            implies #[trigger] wake_waiters(tasks, ready, ws, id).0[k] == tasks[k] by {
            if ws.drop_last().contains(k) {
                let j = choose|j: int| 0 <= j < ws.drop_last().len() && ws.drop_last()[j] == k;
                assert(ws[j] == k);
            }
            assert(ws[ws.len() - 1] != k);
        }
        let w = ws.last();
        if t.contains_key(w) {
            assert(t.insert(w, TaskState::Ready(arbitrary())).dom() =~= t.dom());
        }
        assert(wake_waiters(tasks, ready, ws, id).0.dom() =~= tasks.dom());
    }
}

/// Waking waiters of `id` leaves every task alone that is not waiting on `id`.
proof fn lemma_wake_waiters_keeps<TCtx, V>(
    tasks: Map<TaskId, TaskState<TCtx, V>>,
    ready: Seq<TaskId>,
    ws: Seq<TaskId>,
    id: TaskId,
    k: TaskId,
)
    requires
        tasks.contains_key(k),
        !(tasks[k] matches TaskState::WaitingOn { awaited, .. } && awaited == id),
    ensures
        wake_waiters(tasks, ready, ws, id).0.contains_key(k),
        wake_waiters(tasks, ready, ws, id).0[k] == tasks[k],
    decreases ws.len(),
{
    if ws.len() > 0 {
        lemma_wake_waiters_keeps(tasks, ready, ws.drop_last(), id, k);
    }
}

} // verus!
