use std::collections::HashMap;
use vstd::prelude::*;

use crate::task::TaskId;

verus! {

broadcast use vstd::std_specs::hash::group_hash_axioms;

/// The scheduler as a mathematical value.
pub struct SchedulerModel<T> {
    /// The counter that hands out identifiers.
    pub next_id: nat,
    /// Suspended spawned tasks, by identifier.
    pub tasks: Map<usize, T>,
    /// Identifiers signalled since the last drain, oldest first.
    pub pending: Seq<TaskId>,
    /// What is left of the last drain, in the order it is to be polled.
    pub batch: Seq<TaskId>,
    /// The identifier of the main computation, once one is installed.
    pub main: Option<TaskId>,
}

/// What the loop that drives a scheduler is asked to do next.
pub enum Step<T> {
    /// Poll the main computation.
    PollMain,
    /// Poll this spawned task, which the scheduler has handed over; give it
    /// back with `suspend` if it is not finished.
    PollTask(TaskId, T),
    /// Nothing is runnable: wait for the reactor to signal readiness.
    Block,
}

/// The kind of a step, without the task it may carry.
pub enum Action {
    Main,
    Task(TaskId),
    Block,
}

impl<T> Step<T> {
    pub open spec fn action(self) -> Action {
        match self {
            Step::PollMain => Action::Main,
            Step::PollTask(id, _) => Action::Task(id),
            Step::Block => Action::Block,
        }
    }
}

impl<T> SchedulerModel<T> {
    /// The state after a signal for `id`.
    pub open spec fn signalled(self, id: TaskId) -> Self {
        SchedulerModel { pending: self.pending.push(id), ..self }
    }

    /// The state after a task handed over for polling is given back unfinished.
    pub open spec fn resumed(self, id: TaskId, task: T) -> Self {
        SchedulerModel { tasks: self.tasks.insert(id.0, task), ..self }
    }
}

/// Whether `id` names something the scheduler can poll.
pub open spec fn runnable<T>(s: SchedulerModel<T>, id: TaskId) -> bool {
    s.main == Some(id) || s.tasks.contains_key(id.0)
}

/// Bounds the steps `advance` takes before it polls something or blocks.
pub open spec fn measure<T>(s: SchedulerModel<T>) -> nat {
    s.batch.len() + 2 * s.pending.len()
}

/// One step of the main loop: take the next identifier of the current drain,
/// skipping those of finished tasks; when the drain is used up, drain the
/// signalled identifiers, or block when there are none.
pub open spec fn advance<T>(s: SchedulerModel<T>) -> (SchedulerModel<T>, Action)
    decreases measure(s),
{
    if s.batch.len() > 0 {
        let id = s.batch[0];
        let rest = SchedulerModel { batch: s.batch.drop_first(), ..s };
        if s.main == Some(id) {
            (rest, Action::Main)
        } else if s.tasks.contains_key(id.0) {
            (SchedulerModel { tasks: s.tasks.remove(id.0), ..rest }, Action::Task(id))
        } else {
            advance(rest)
        }
    } else if s.pending.len() == 0 {
        (s, Action::Block)
    } else {
        advance(SchedulerModel { batch: s.pending, pending: Seq::empty(), ..s })
    }
}

/// Owns the spawned tasks and the queue of those ready to make progress.
pub struct Scheduler<T> {
    next_id: TaskId,
    tasks: HashMap<usize, T>,
    pending: Vec<TaskId>,
    batch: Vec<TaskId>,
    cursor: usize,
    main: Option<TaskId>,
}

impl<T> View for Scheduler<T> {
    type V = SchedulerModel<T>;

    closed spec fn view(&self) -> SchedulerModel<T> {
        SchedulerModel {
            next_id: self.next_id.0 as nat,
            tasks: self.tasks@,
            pending: self.pending@,
            batch: self.batch@.subrange(self.cursor as int, self.batch@.len() as int),
            main: self.main,
        }
    }
}

impl<T> Scheduler<T> {
    pub closed spec fn wf(&self) -> bool {
        self.cursor <= self.batch@.len()
    }

    /// A scheduler with no tasks, nothing signalled and no main computation.
    pub fn new() -> (s: Self)
        ensures
            s.wf(),
            s@.next_id == 0,
            s@.tasks == Map::<usize, T>::empty(),
            s@.pending == Seq::<TaskId>::empty(),
            s@.batch == Seq::<TaskId>::empty(),
            s@.main == None::<TaskId>,
    {
        Scheduler {
            next_id: TaskId(0),
            tasks: HashMap::new(),
            pending: Vec::new(),
            batch: Vec::new(),
            cursor: 0,
            main: None,
        }
    }

    /// Adds a task under the next identifier and marks it ready; it is not polled.
    pub fn spawn(&mut self, task: T) -> (id: TaskId)
        requires
            old(self).wf(),
            old(self)@.next_id < usize::MAX,
        ensures
            final(self).wf(),
            id.0 == old(self)@.next_id,
            final(self)@ == (SchedulerModel {
                next_id: old(self)@.next_id + 1,
                tasks: old(self)@.tasks.insert(id.0, task),
                pending: old(self)@.pending.push(id),
                ..old(self)@
            }),
    {
        let id = self.next_id.next();
        self.tasks.insert(id.0, task);
        self.pending.push(id);
        id
    }

    /// Records a signal for `id`: it is appended to the ready queue once per call.
    pub fn schedule(&mut self, id: TaskId)
        requires
            old(self).wf(),
        ensures
            final(self).wf(),
            final(self)@ == old(self)@.signalled(id),
    {
        self.pending.push(id);
    }

    /// Installs the main computation under the next identifier and marks it ready.
    pub fn enter(&mut self) -> (id: TaskId)
        requires
            old(self).wf(),
            old(self)@.next_id < usize::MAX,
        ensures
            final(self).wf(),
            id.0 == old(self)@.next_id,
            final(self)@ == (SchedulerModel {
                next_id: old(self)@.next_id + 1,
                pending: old(self)@.pending.push(id),
                main: Some(id),
                ..old(self)@
            }),
    {
        let id = self.next_id.next();
        self.main = Some(id);
        self.pending.push(id);
        id
    }

    /// Decides what the driving loop does next, as `advance` describes; a
    /// task to poll is taken out of the scheduler and handed over.
    pub fn next_step(&mut self) -> (r: Step<T>)
        requires
            old(self).wf(),
        ensures
            final(self).wf(),
            (final(self)@, r.action()) == advance(old(self)@),
            r matches Step::PollTask(id, t) ==> old(self)@.tasks.contains_key(id.0) && t
                == old(self)@.tasks[id.0],
    {
        loop
            invariant_except_break
                self.wf(),
                advance(self@) == advance(old(self)@),
                self@.tasks == old(self)@.tasks,
            ensures
                self.wf(),
            decreases measure(self@),
        {
            if self.cursor < self.batch.len() {
                let id = self.batch[self.cursor];
                let ghost before = self@;
                self.cursor = self.cursor + 1;
                assert(self@.batch =~= before.batch.drop_first());
                if self.main == Some(id) {
                    return Step::PollMain;
                }
                match self.tasks.remove(&id.0) {
                    Some(t) => {
                        return Step::PollTask(id, t);
                    },
                    None => {
                        assert(self@.tasks =~= before.tasks);
                        assert(self@ == (SchedulerModel { batch: before.batch.drop_first(), ..before }));
                    },
                }
            } else {
                if self.pending.len() == 0 {
                    assert(self@.batch =~= Seq::<TaskId>::empty());
                    return Step::Block;
                }
                let ghost before = self@;
                std::mem::swap(&mut self.batch, &mut self.pending);
                self.pending.clear();
                self.cursor = 0;
                assert(self@.batch =~= before.pending);
                assert(self@.pending =~= Seq::<TaskId>::empty());
                assert(self@ == (SchedulerModel { batch: before.pending, pending: Seq::empty(), ..before }));
            }
        }
    }

    /// Gives back a task that `next_step` handed over and that is not finished.
    pub fn suspend(&mut self, id: TaskId, task: T)
        requires
            old(self).wf(),
        ensures
            final(self).wf(),
            final(self)@ == old(self)@.resumed(id, task),
    {
        self.tasks.insert(id.0, task);
    }

    /// Whether an identifier is left for one more task.
    pub fn can_spawn(&self) -> (r: bool)
        ensures
            r == (self@.next_id < usize::MAX),
    {
        self.next_id.0 < usize::MAX
    }

    /// Whether no spawned task is left.
    pub fn is_idle(&self) -> (r: bool)
        ensures
            r == (self@.tasks.len() == 0),
    {
        self.tasks.is_empty()
    }
}

impl<T> Default for Scheduler<T> {
    fn default() -> (s: Self)
        ensures
            s.wf(),
            s@.next_id == 0,
            s@.tasks == Map::<usize, T>::empty(),
            s@.pending == Seq::<TaskId>::empty(),
            s@.batch == Seq::<TaskId>::empty(),
            s@.main == None::<TaskId>,
    {
        Scheduler::new()
    }
}

/// Every identifier of `q` names a finished task.
pub open spec fn all_finished<T>(s: SchedulerModel<T>, q: Seq<TaskId>) -> bool {
    forall|i: int| 0 <= i < q.len() ==> !runnable(s, #[trigger] q[i])
}

/// With nothing left of the drain but identifiers of finished tasks and
/// nothing signalled, the next step blocks, and nothing is polled.
pub proof fn lemma_finished_blocks<T>(s: SchedulerModel<T>)
    requires
        all_finished(s, s.batch),
        s.pending.len() == 0,
    ensures
        advance(s) == (SchedulerModel { batch: Seq::<TaskId>::empty(), ..s }, Action::Block),
    decreases s.batch.len(),
{
    if s.batch.len() == 0 {
        assert(s.batch =~= Seq::<TaskId>::empty());
        assert(s == SchedulerModel { batch: Seq::<TaskId>::empty(), ..s });
    } else {
        assert(!runnable(s, s.batch[0]));
        let rest = SchedulerModel { batch: s.batch.drop_first(), ..s };
        assert(all_finished(rest, rest.batch)) by {
            assert forall|i: int| 0 <= i < rest.batch.len() implies !runnable(
                rest,
                #[trigger] rest.batch[i],
            ) by {
                assert(rest.batch[i] == s.batch[i + 1]);
            }
        }
        lemma_finished_blocks(rest);
    }
}

/// Progress: while a spawned task or the main computation that is not
/// finished waits in the drain or among the signalled identifiers, the next
/// step polls something and does not block.
pub proof fn lemma_ready_work_does_not_block<T>(s: SchedulerModel<T>, id: TaskId)
    requires
        runnable(s, id),
        s.batch.contains(id) || s.pending.contains(id),
    ensures
        !(advance(s).1 is Block),
    decreases measure(s),
{
    if s.batch.len() > 0 {
        let first = s.batch[0];
        let rest = SchedulerModel { batch: s.batch.drop_first(), ..s };
        if !runnable(s, first) {
            if s.batch.contains(id) {
                let i = choose|i: int| 0 <= i < s.batch.len() && s.batch[i] == id;
                assert(i != 0);
                assert(rest.batch[i - 1] == id);
            }
            lemma_ready_work_does_not_block(rest, id);
        }
    } else if s.pending.len() > 0 {
        let drained = SchedulerModel { batch: s.pending, pending: Seq::empty(), ..s };
        lemma_ready_work_does_not_block(drained, id);
    }
}

/// A task that signals its own wake handle once during a poll, and is then
/// given back unfinished, is polled exactly once more on the next step, and
/// that leaves nothing queued; a task given back without a signal is not
/// polled again, and the loop blocks.
pub proof fn lemma_self_wake_polls_once_more<T>(s: SchedulerModel<T>, id: TaskId, task: T)
    requires
        s.batch.len() == 0,
        s.pending.len() == 0,
        s.main != Some(id),
    ensures
        advance(s.signalled(id).resumed(id, task)) == (SchedulerModel {
            tasks: s.tasks.insert(id.0, task).remove(id.0),
            ..s
        }, Action::Task(id)),
        advance(s.resumed(id, task)) == (s.resumed(id, task), Action::Block),
{
    let woken = s.signalled(id).resumed(id, task);
    let drained = SchedulerModel { batch: woken.pending, pending: Seq::empty(), ..woken };
    assert(drained.batch[0] == id);
    assert(drained.batch.drop_first() =~= s.batch);
    assert(drained.pending =~= s.pending);
    assert(advance(woken) == advance(drained));
    assert(advance(drained) == (SchedulerModel {
        tasks: s.tasks.insert(id.0, task).remove(id.0),
        ..s
    }, Action::Task(id)));
}

/// The polls that follow one poll of task `id` in a loop that drives the
/// scheduler, when the task signals itself and is given back unfinished on
/// each of its next `wakes` polls and finishes on the one after; `s` is the
/// scheduler while that poll runs. Polls of anything other than `id` end the
/// count.
pub open spec fn polls_after<T>(s: SchedulerModel<T>, id: TaskId, task: T, wakes: nat) -> nat
    decreases wakes,
{
    if wakes == 0 {
        0
    } else {
        let (next, action) = advance(s.signalled(id).resumed(id, task));
        if action == Action::Task(id) {
            1 + polls_after(next, id, task, (wakes - 1) as nat)
        } else {
            0
        }
    }
}

/// A lone task that wakes itself `k` times is polled exactly `k + 1` times:
/// once at first, then once per signal, and after the last poll, which
/// finishes it, the loop blocks.
pub proof fn lemma_poll_count<T>(s: SchedulerModel<T>, id: TaskId, task: T, k: nat)
    requires
        s.batch.len() == 0,
        s.pending.len() == 0,
        s.main != Some(id),
        !s.tasks.contains_key(id.0),
    ensures
        1 + polls_after(s, id, task, k) == k + 1,
        advance(s).1 == Action::Block,
    decreases k,
{
    lemma_self_wake_polls_once_more(s, id, task);
    assert(s.tasks.insert(id.0, task).remove(id.0) =~= s.tasks);
    assert(s.batch =~= Seq::<TaskId>::empty());
    if k > 0 {
        lemma_poll_count(s, id, task, (k - 1) as nat);
    }
}

/// Signalling a suspended task `n` times between two polls polls it once on
/// the next step; if that poll finishes it, the other signals are dropped and
/// no further poll follows.
pub proof fn lemma_repeated_signals_poll_once<T>(s: SchedulerModel<T>, id: TaskId, n: nat)
    requires
        s.batch.len() == 0,
        s.pending == Seq::new(n, |_i: int| id),
        n >= 1,
        s.tasks.contains_key(id.0),
        s.main != Some(id),
    ensures
        advance(s).1 == Action::Task(id),
        advance(advance(s).0).1 == Action::Block,
        advance(advance(s).0).0.tasks == s.tasks.remove(id.0),
{
    let drained = SchedulerModel { batch: s.pending, pending: Seq::empty(), ..s };
    assert(drained.batch[0] == id);
    assert(advance(s) == advance(drained));
    assert(advance(drained) == (SchedulerModel {
        tasks: s.tasks.remove(id.0),
        batch: s.pending.drop_first(),
        pending: Seq::empty(),
        ..s
    }, Action::Task(id)));
    let after = advance(s).0;
    assert(after == SchedulerModel {
        tasks: s.tasks.remove(id.0),
        batch: s.pending.drop_first(),
        pending: Seq::empty(),
        ..s
    });
    assert(all_finished(after, after.batch)) by {
        assert forall|i: int| 0 <= i < after.batch.len() implies !runnable(
            after,
            #[trigger] after.batch[i],
        ) by {
            assert(after.batch[i] == id);
        }
    }
    lemma_finished_blocks(after);
}

} // verus!
