//! The tasks of a kernel, who runs where, and the shared run queue.
use crate::config::Config;
use crate::run_queue::AxRunQueue;
use crate::sched::{akin, all_fit, countable, fits, lemma_queue_len, lemma_sound_lower, sound, start};
use crate::sched::{distinct, inserted, lemma_inserted, lemma_removed, listed, removed};
use crate::sched::{BaseScheduler, Entry, Ready, RemovableScheduler};
use crate::task::{ScheduleTask, TaskInner, TaskState};
use vstd::prelude::*;

verus! {

/// A task, by its number.
pub type AxTaskRef = usize;

/// Where the scheduling item of a task is.
pub enum Entity<S: BaseScheduler> {
    /// With the task itself: it is in no ready queue.
    Held(S::SchedItem),
    /// In the shared run queue.
    RunQueue,
    /// In the ready queue of a processor.
    Processor(usize),
}

/// Where the scheduling item of a task is, and what it holds while the task has it.
pub enum Slot {
    Held(Entry),
    RunQueue,
    Processor(usize),
}

impl<S: BaseScheduler> Entity<S> {
    /// What is known of the item.
    pub open spec fn slot(self) -> Slot {
        match self {
            Entity::Held(item) => Slot::Held(S::entry(item)),
            Entity::RunQueue => Slot::RunQueue,
            Entity::Processor(cpu) => Slot::Processor(cpu),
        }
    }
}

/// A change of the running task that the machine still has to carry out.
#[derive(Clone, Copy, Debug, PartialEq, Eq, Structural)]
pub struct Switch {
    /// The task whose context is saved.
    pub prev: AxTaskRef,
    /// The task whose context is restored.
    pub next: AxTaskRef,
    /// The address space to load first, if any.
    pub page_table: Option<usize>,
    /// The time statistics of both tasks are brought up to date first.
    pub account_time: bool,
}

/// What came out of a scheduling decision.
#[derive(Clone, Copy, Debug, PartialEq, Eq, Structural)]
pub enum Switched {
    /// The running task goes on.
    Stay,
    /// Another task runs from now on.
    To(Switch),
}

/// The tasks of a kernel with the shared run queue.
pub struct System<S: BaseScheduler> {
    pub config: Config,
    /// Every task that was ever made. A task is known by its place here.
    pub tasks: Vec<ScheduleTask>,
    /// Where the scheduling item of each task is.
    pub entities: Vec<Entity<S>>,
    /// The task that each CPU runs.
    pub current: Vec<Option<AxTaskRef>>,
    /// The task that each CPU takes when the shared run queue has none for it.
    pub idle_tasks: Vec<Option<AxTaskRef>>,
    pub run_queue: AxRunQueue<S>,
}

/// What a system holds.
pub struct SystemView {
    pub config: Config,
    pub tasks: Seq<ScheduleTask>,
    pub slots: Seq<Slot>,
    pub current: Seq<Option<AxTaskRef>>,
    pub idle: Seq<Option<AxTaskRef>>,
    pub run_queue: Ready,
}

impl SystemView {
    /// The state of a task.
    pub open spec fn state(self, task: AxTaskRef) -> TaskState {
        self.tasks[task as int].state
    }

    /// What a task is made of.
    pub open spec fn inner(self, task: AxTaskRef) -> TaskInner {
        self.tasks[task as int].inner
    }

    /// The task exists.
    pub open spec fn valid(self, task: AxTaskRef) -> bool {
        task < self.tasks.len()
    }

    /// Every task in `q` exists.
    pub open spec fn all_valid(self, q: Seq<AxTaskRef>) -> bool {
        forall|i: int| 0 <= i < q.len() ==> self.valid(#[trigger] q[i])
    }

    /// There is a CPU `cpu`, and it runs a task.
    pub open spec fn running(self, cpu: usize) -> bool {
        cpu < self.current.len() && self.current[cpu as int] is Some
    }

    /// The task that CPU `cpu` runs.
    pub open spec fn curr(self, cpu: usize) -> AxTaskRef {
        self.current[cpu as int]->0
    }

    /// A CPU runs the task `task`.
    pub open spec fn is_current(self, task: AxTaskRef) -> bool {
        exists|c: int| 0 <= c < self.current.len() && #[trigger] self.current[c] == Some(task)
    }

    /// The task `task` becomes `t`.
    pub open spec fn with_task(self, task: AxTaskRef, t: ScheduleTask) -> SystemView {
        SystemView { tasks: self.tasks.update(task as int, t), ..self }
    }

    /// The task `task` changes its state.
    pub open spec fn with_state(self, task: AxTaskRef, state: TaskState) -> SystemView {
        self.with_task(task, ScheduleTask { state, ..self.tasks[task as int] })
    }

    /// The task `task` is made of `inner` from now on.
    pub open spec fn with_inner(self, task: AxTaskRef, inner: TaskInner) -> SystemView {
        self.with_task(task, ScheduleTask { inner, ..self.tasks[task as int] })
    }

    /// Whether preemption of the task `task` is pending changes.
    pub open spec fn with_pending(self, task: AxTaskRef, preempt_pending: bool) -> SystemView {
        self.with_inner(task, TaskInner { preempt_pending, ..self.inner(task) })
    }

    /// CPU `cpu` runs another task.
    pub open spec fn with_current(self, cpu: usize, task: AxTaskRef) -> SystemView {
        SystemView { current: self.current.update(cpu as int, Some(task)), ..self }
    }

    /// The scheduling item of task `task` is elsewhere.
    pub open spec fn with_slot(self, task: AxTaskRef, slot: Slot) -> SystemView {
        SystemView { slots: self.slots.update(task as int, slot), ..self }
    }

    /// The machine work for a switch from `prev` to `next`.
    pub open spec fn switch_of(self, prev: AxTaskRef, next: AxTaskRef) -> Switch {
        Switch {
            prev,
            next,
            page_table: if self.config.monolithic && self.inner(next).page_table_token != 0 {
                Some(self.inner(next).page_table_token)
            } else {
                None
            },
            account_time: self.config.monolithic,
        }
    }

    /// What always holds: the items are where their tasks say, each task is at most once in the run
    /// queue, whoever is named exists, and the run times of the items can be computed.
    pub open spec fn wf(self) -> bool {
        &&& self.slots.len() == self.tasks.len()
        &&& countable(self.tasks.len())
        &&& items_sound(self.run_queue, self.slots)
        &&& self.idle.len() == self.current.len()
        &&& forall|t: int|
            0 <= t < self.slots.len() && (#[trigger] self.slots[t]) is Held
                ==> self.slots[t]->Held_0.id == t
        &&& distinct(self.run_queue)
        &&& forall|t: usize| #[trigger]
            listed(self.run_queue, t) <==> (self.valid(t) && self.slots[t as int] is RunQueue)
        &&& forall|c: int|
            0 <= c < self.current.len() && (#[trigger] self.current[c]) is Some ==> self.valid(
                self.current[c]->0,
            )
        &&& forall|c: int|
            0 <= c < self.idle.len() && (#[trigger] self.idle[c]) is Some ==> self.valid(
                self.idle[c]->0,
            )
    }

    /// The same tasks, CPUs and options; the ready queues of the processors are as before, and a task that
    /// is added to the run queue starts from no greater run time.
    pub open spec fn same_frame(self, post: SystemView) -> bool {
        &&& self.same_places(post)
        &&& start(post.run_queue) <= start(self.run_queue)
    }

    /// The same tasks, CPUs and options; the ready queues of the processors are as before.
    pub open spec fn same_places(self, post: SystemView) -> bool {
        &&& post.config == self.config
        &&& post.tasks.len() == self.tasks.len()
        &&& post.slots.len() == self.slots.len()
        &&& post.current.len() == self.current.len()
        &&& post.idle == self.idle
        &&& forall|t: int|
            #![trigger self.slots[t]]
            #![trigger post.slots[t]]
            0 <= t < self.slots.len() && (self.slots[t] is Processor || post.slots[t] is Processor)
                ==> post.slots[t] == self.slots[t]
    }
}

/// The run times of all items in the queue `q`, and of those that the tasks have, can be computed, also
/// once they are added to that queue.
#[verifier::opaque]
pub open spec fn items_sound(q: Ready, slots: Seq<Slot>) -> bool {
    &&& 0 <= start(q) <= isize::MAX
    &&& forall|i: int| 0 <= i < q.list.len() ==> sound(q, #[trigger] q.list[i])
    &&& forall|t: int|
        0 <= t < slots.len() && (#[trigger] slots[t]) is Held ==> sound(q, slots[t]->Held_0)
}

/// What is known of a task that has its item.
pub proof fn lemma_held_sound(q: Ready, slots: Seq<Slot>, task: AxTaskRef)
    requires
        items_sound(q, slots),
    ensures
        0 <= start(q) <= isize::MAX,
        all_fit(q),
        forall|i: int| 0 <= i < q.list.len() ==> sound(q, #[trigger] q.list[i]),
        task < slots.len() && slots[task as int] is Held ==> sound(q, slots[task as int]->Held_0),
{
    reveal(items_sound);
}

/// A task gets an item, or has one no more.
pub proof fn lemma_slot_sound(q: Ready, slots: Seq<Slot>, task: AxTaskRef, slot: Slot)
    requires
        items_sound(q, slots),
        task < slots.len(),
        slot is Held ==> sound(q, slot->Held_0),
    ensures
        items_sound(q, slots.update(task as int, slot)),
{
    reveal(items_sound);
    let post = slots.update(task as int, slot);
    assert forall|t: int| 0 <= t < post.len() && (#[trigger] post[t]) is Held implies sound(
        q,
        post[t]->Held_0,
    ) by {
        if t != task {
            assert(slots[t] is Held);
        }
    }
}

/// A task more has its item.
pub proof fn lemma_new_slot_sound(q: Ready, slots: Seq<Slot>, e: Entry)
    requires
        items_sound(q, slots),
        sound(q, e),
    ensures
        items_sound(q, slots.push(Slot::Held(e))),
{
    reveal(items_sound);
    let post = slots.push(Slot::Held(e));
    assert forall|t: int| 0 <= t < post.len() && (#[trigger] post[t]) is Held implies sound(
        q,
        post[t]->Held_0,
    ) by {
        if t < slots.len() {
            assert(slots[t] is Held);
        }
    }
}

/// Another queue takes the place of `q`: all its items are sound, and whoever is added to it starts from no
/// greater run time.
pub proof fn lemma_queue_sound(q: Ready, slots: Seq<Slot>, after: Ready)
    requires
        items_sound(q, slots),
        0 <= start(after) <= start(q),
        forall|i: int| 0 <= i < after.list.len() ==> sound(after, #[trigger] after.list[i]),
    ensures
        items_sound(after, slots),
{
    reveal(items_sound);
    assert forall|t: int| 0 <= t < slots.len() && (#[trigger] slots[t]) is Held implies sound(
        after,
        slots[t]->Held_0,
    ) by {
        lemma_sound_lower(q, after, slots[t]->Held_0);
    }
}

/// The items of a queue stay sound when one comes to them.
pub proof fn lemma_joined_sound(rq: Ready, after_rq: Ready, q: Ready, e: Entry, x: Entry, after: Ready)
    requires
        forall|i: int| 0 <= i < q.list.len() ==> sound(rq, #[trigger] q.list[i]),
        0 <= start(after_rq) <= start(rq),
        sound(rq, e),
        akin(e, x),
        fits(x),
        inserted(q, x, after),
    ensures
        forall|i: int| 0 <= i < after.list.len() ==> sound(after_rq, #[trigger] after.list[i]),
{
    let at = choose|at: int|
        0 <= at <= q.list.len() && after.list == #[trigger] q.list.insert(at, x);
    assert forall|i: int| 0 <= i < after.list.len() implies sound(
        after_rq,
        #[trigger] after.list[i],
    ) by {
        if i < at {
            assert(after.list[i] == q.list[i]);
            lemma_sound_lower(rq, after_rq, q.list[i]);
        } else if i > at {
            assert(after.list[i] == q.list[i - 1]);
            lemma_sound_lower(rq, after_rq, q.list[i - 1]);
        } else {
            assert(fits(Entry { base: start(rq), ..e }));
        }
    }
}

/// There is room in the run queue for each task.
pub proof fn lemma_run_queue_len(v: SystemView)
    requires
        v.wf(),
    ensures
        countable(v.run_queue.len()),
{
    assert forall|t: usize| #[trigger] listed(v.run_queue, t) implies t < v.tasks.len() by {
    }
    lemma_queue_len(v.run_queue, v.tasks.len());
}

impl<S: BaseScheduler> View for System<S> {
    type V = SystemView;

    open spec fn view(&self) -> SystemView {
        SystemView {
            config: self.config,
            tasks: self.tasks@,
            slots: self.entities@.map_values(|e: Entity<S>| e.slot()),
            current: self.current@,
            idle: self.idle_tasks@,
            run_queue: self.run_queue.scheduler.ready(),
        }
    }
}

/// Adding the task `task` may turn the run queue into `queue`. A task that is in a ready queue already
/// is not added.
pub open spec fn may_enqueue<S: BaseScheduler>(
    pre: SystemView,
    task: AxTaskRef,
    queue: Ready,
) -> bool {
    match pre.slots[task as int] {
        Slot::Held(e) => S::adds(e, pre.run_queue, queue),
        _ => queue == pre.run_queue,
    }
}

/// Putting the task `task`, which has just run, back may turn the run queue into `queue`. A task that
/// is in a ready queue already is not put back.
pub open spec fn may_requeue<S: BaseScheduler>(
    pre: SystemView,
    task: AxTaskRef,
    preempt: bool,
    queue: Ready,
) -> bool {
    match pre.slots[task as int] {
        Slot::Held(e) => S::puts(e, preempt, pre.run_queue, queue),
        _ => queue == pre.run_queue,
    }
}

/// The system once the task `task` is in the run queue, which is now `queue`; nothing changes if the
/// task was in a ready queue already.
pub open spec fn queued_as(pre: SystemView, task: AxTaskRef, queue: Ready) -> SystemView {
    match pre.slots[task as int] {
        Slot::Held(_) => (SystemView { run_queue: queue, ..pre }).with_slot(task, Slot::RunQueue),
        _ => pre,
    }
}

/// The task `task` goes into the run queue, unless it is in a ready queue already.
pub open spec fn enqueued<S: BaseScheduler>(
    pre: SystemView,
    task: AxTaskRef,
    post: SystemView,
) -> bool {
    &&& may_enqueue::<S>(pre, task, post.run_queue)
    &&& post == queued_as(pre, task, post.run_queue)
}

/// The task `task`, which has just run, goes back into the run queue, unless it is in a ready queue
/// already.
pub open spec fn requeued<S: BaseScheduler>(
    pre: SystemView,
    task: AxTaskRef,
    preempt: bool,
    post: SystemView,
) -> bool {
    &&& may_requeue::<S>(pre, task, preempt, post.run_queue)
    &&& post == queued_as(pre, task, post.run_queue)
}

/// The first task of the run queue is taken out.
pub open spec fn picked(pre: SystemView) -> SystemView {
    let e = pre.run_queue[0];
    (SystemView { run_queue: pre.run_queue.rest(), ..pre }).with_slot(e.id, Slot::Held(e))
}

/// The task `task` is taken out of the run queue and has its scheduling item again; nothing changes if
/// it was not there.
pub open spec fn taken_out<S: RemovableScheduler>(
    pre: SystemView,
    task: AxTaskRef,
    post: SystemView,
) -> bool {
    match pre.slots[task as int] {
        Slot::RunQueue => {
            let e = post.slots[task as int]->Held_0;
            &&& pre.run_queue.list.contains(e)
            &&& e.id == task
            &&& S::removes(pre.run_queue, task, post.run_queue)
            &&& post == (SystemView { run_queue: post.run_queue, ..pre }).with_slot(
                task,
                Slot::Held(e),
            )
        },
        _ => post == pre,
    }
}

/// The item `e` is in the run queue, or with its task.
pub open spec fn present(v: SystemView, e: Entry) -> bool {
    v.run_queue.list.contains(e) || v.slots.contains(Slot::Held(e))
}

/// A task can be taken out of the run queue without harm to the items in it and to those that the tasks
/// have.
pub open spec fn can_take_out<S: RemovableScheduler>(v: SystemView) -> bool {
    forall|e: Entry| #[trigger] present(v, e) ==> S::can_remove(v.run_queue, e)
}

impl<S: RemovableScheduler> System<S> {
    /// Takes a task out of the run queue, if it is there.
    pub(crate) fn take_out(&mut self, task: AxTaskRef)
        requires
            old(self).wf(),
            old(self)@.valid(task),
            can_take_out::<S>(old(self)@),
        ensures
            final(self).wf(),
            old(self)@.same_places(final(self)@),
            taken_out::<S>(old(self)@, task, final(self)@),
    {
        let ghost pre = self@;
        assert(self.entities@.len() == pre.slots.len());
        assert(pre.slots[task as int] == self.entities@[task as int].slot());
        let queued = match &self.entities[task] {
            Entity::RunQueue => true,
            _ => false,
        };
        if queued {
            assert(listed(pre.run_queue, task));
            let item = self.run_queue.scheduler.remove_task(task);
            self.entities[task] = Entity::Held(item);
            assert(self@.slots =~= pre.slots.update(task as int, Slot::Held(S::entry(item))));
            proof {
                S::removes_only(pre.run_queue, task, self@.run_queue);
                lemma_taken_out_sound::<S>(pre, task, S::entry(item), self@.run_queue);
            }
        }
    }
}

/// The items stay sound when a task is taken out of the run queue.
pub proof fn lemma_taken_out_sound<S: RemovableScheduler>(
    pre: SystemView,
    task: AxTaskRef,
    e: Entry,
    after: Ready,
)
    requires
        pre.wf(),
        listed(pre.run_queue, task),
        can_take_out::<S>(pre),
        pre.run_queue.list.contains(e),
        S::removes(pre.run_queue, task, after),
    ensures
        items_sound(after, pre.slots.update(task as int, Slot::Held(e))),
{
    let q = pre.run_queue;
    S::removes_only(q, task, after);
    let at = choose|at: int|
        0 <= at < q.list.len() && q.list[at].id == task && after.list == #[trigger] q.list.remove(at);
    let slots = pre.slots.update(task as int, Slot::Held(e));
    reveal(items_sound);
    assert forall|x: Entry| present(pre, x) implies #[trigger] sound(after, x) by {
        assert(sound(q, x)) by {
            if q.list.contains(x) {
                let i = choose|i: int| 0 <= i < q.list.len() && q.list[i] == x;
                assert(sound(q, q.list[i]));
            } else {
                let t = choose|t: int| 0 <= t < pre.slots.len() && pre.slots[t] == Slot::Held(x);
                assert(pre.slots[t] is Held);
            }
        }
        S::removes_sound(q, task, after, x);
    }
    assert(present(pre, e));
    assert(0 <= start(after) <= isize::MAX) by {
        assert(sound(after, e));
    }
    assert forall|i: int| 0 <= i < after.list.len() implies sound(after, #[trigger] after.list[i]) by {
        let j = if i < at {
            i
        } else {
            i + 1
        };
        assert(after.list[i] == q.list[j]);
        assert(q.list.contains(q.list[j]));
        assert(present(pre, q.list[j]));
    }
    assert forall|t: int| 0 <= t < slots.len() && (#[trigger] slots[t]) is Held implies sound(
        after,
        slots[t]->Held_0,
    ) by {
        if t != task {
            assert(pre.slots[t] == Slot::Held(slots[t]->Held_0));
            assert(pre.slots.contains(Slot::Held(slots[t]->Held_0)));
            assert(present(pre, slots[t]->Held_0));
        }
    }
}

impl<S: BaseScheduler> System<S> {
    /// What always holds of a system.
    pub open spec fn wf(&self) -> bool {
        self@.wf()
    }

    /// Adds a task to the run queue, unless it is in a ready queue already.
    pub(crate) fn enqueue(&mut self, task: AxTaskRef)
        requires
            old(self).wf(),
            old(self)@.valid(task),
        ensures
            final(self).wf(),
            old(self)@.same_frame(final(self)@),
            enqueued::<S>(old(self)@, task, final(self)@),
    {
        let ghost pre = self@;
        let mut entity: Entity<S> = Entity::RunQueue;
        assert(self.entities@.len() == self@.slots.len());
        core::mem::swap(&mut entity, &mut self.entities[task]);
        match entity {
            Entity::Held(item) => {
                assert(pre.slots[task as int] == Slot::Held(S::entry(item)));
                assert(!listed(pre.run_queue, task));
                proof {
                    lemma_run_queue_len(pre);
                    lemma_held_sound(pre.run_queue, pre.slots, task);
                }
                self.run_queue.scheduler.add_task(item);
                proof {
                    let e = S::entry(item);
                    S::adds_inserts(e, pre.run_queue, self@.run_queue);
                    let x = choose|x: Entry|
                        x.id == task && akin(e, x) && fits(x) && #[trigger] inserted(
                            pre.run_queue,
                            x,
                            self@.run_queue,
                        );
                    assert(self@.slots =~= pre.slots.update(task as int, Slot::RunQueue));
                    lemma_into_run_queue(pre, task, x, self@);
                }
            },
            other => {
                self.entities[task] = other;
                assert(self@.slots =~= pre.slots);
            },
        }
    }

    /// Puts a task that has just run back into the run queue, unless it is in a ready queue already.
    pub(crate) fn requeue(&mut self, task: AxTaskRef, preempt: bool)
        requires
            old(self).wf(),
            old(self)@.valid(task),
        ensures
            final(self).wf(),
            old(self)@.same_frame(final(self)@),
            requeued::<S>(old(self)@, task, preempt, final(self)@),
    {
        let ghost pre = self@;
        let mut entity: Entity<S> = Entity::RunQueue;
        assert(self.entities@.len() == self@.slots.len());
        core::mem::swap(&mut entity, &mut self.entities[task]);
        match entity {
            Entity::Held(item) => {
                assert(pre.slots[task as int] == Slot::Held(S::entry(item)));
                assert(!listed(pre.run_queue, task));
                proof {
                    lemma_run_queue_len(pre);
                    lemma_held_sound(pre.run_queue, pre.slots, task);
                }
                self.run_queue.scheduler.put_prev_task(item, preempt);
                proof {
                    let e = S::entry(item);
                    S::puts_inserts(e, preempt, pre.run_queue, self@.run_queue);
                    let x = choose|x: Entry|
                        x.id == task && akin(e, x) && fits(x) && #[trigger] inserted(
                            pre.run_queue,
                            x,
                            self@.run_queue,
                        );
                    assert(self@.slots =~= pre.slots.update(task as int, Slot::RunQueue));
                    lemma_into_run_queue(pre, task, x, self@);
                }
            },
            other => {
                self.entities[task] = other;
                assert(self@.slots =~= pre.slots);
            },
        }
    }

    /// Takes the first task out of the run queue.
    pub(crate) fn pick(&mut self) -> (task: Option<AxTaskRef>)
        requires
            old(self).wf(),
        ensures
            final(self).wf(),
            old(self)@.same_frame(final(self)@),
            match task {
                None => old(self)@.run_queue.len() == 0 && final(self)@ == old(self)@,
                Some(t) => {
                    &&& old(self)@.run_queue.len() > 0
                    &&& t == old(self)@.run_queue[0].id
                    &&& final(self)@.valid(t)
                    &&& final(self)@ == picked(old(self)@)
                },
            },
    {
        let ghost pre = self@;
        match self.run_queue.scheduler.pick_next_task() {
            None => None,
            Some(item) => {
                let task = S::item_id(&item);
                assert(listed(pre.run_queue, task));
                assert(self.entities@.len() == pre.slots.len());
                self.entities[task] = Entity::Held(item);
                assert(self@.slots =~= pre.slots.update(
                    task as int,
                    Slot::Held(pre.run_queue[0]),
                ));
                proof {
                    lemma_picked(pre);
                }
                Some(task)
            },
        }
    }

    /// Takes the scheduling item from a task that has it. Until it is put back the system names no
    /// place for it.
    pub(crate) fn take_item(&mut self, task: AxTaskRef) -> (item: S::SchedItem)
        requires
            old(self).wf(),
            old(self)@.valid(task),
            old(self)@.slots[task as int] is Held,
        ensures
            S::entry(item) == old(self)@.slots[task as int]->Held_0,
            final(self)@ == old(self)@.with_slot(task, Slot::RunQueue),
    {
        let ghost pre = self@;
        let mut entity: Entity<S> = Entity::RunQueue;
        assert(self.entities@.len() == self@.slots.len());
        assert(pre.slots[task as int] == self.entities@[task as int].slot());
        core::mem::swap(&mut entity, &mut self.entities[task]);
        assert(self@.slots =~= pre.slots.update(task as int, Slot::RunQueue));
        match entity {
            Entity::Held(item) => item,
            _ => {
                assert(false);
                vstd::pervasive::unreached()
            },
        }
    }

    /// Gives a scheduling item to a task.
    pub(crate) fn put_item(&mut self, task: AxTaskRef, item: S::SchedItem)
        requires
            task < old(self)@.slots.len(),
        ensures
            final(self)@ == old(self)@.with_slot(task, Slot::Held(S::entry(item))),
    {
        let ghost pre = self@;
        assert(self.entities@.len() == self@.slots.len());
        self.entities[task] = Entity::Held(item);
        assert(self@.slots =~= pre.slots.update(task as int, Slot::Held(S::entry(item))));
    }

    /// The task that CPU `cpu` runs.
    pub(crate) fn curr(&self, cpu: usize) -> (task: AxTaskRef)
        requires
            self.wf(),
            self@.running(cpu),
        ensures
            task == self@.curr(cpu),
            self@.valid(task),
    {
        self.current[cpu].unwrap()
    }

    /// Whether a CPU runs a task.
    pub(crate) fn is_current(&self, task: AxTaskRef) -> (r: bool)
        ensures
            r == self@.is_current(task),
    {
        let mut cpu: usize = 0;
        while cpu < self.current.len()
            invariant
                cpu <= self.current@.len(),
                forall|c: int| 0 <= c < cpu ==> self.current@[c] != Some(task),
            decreases self.current@.len() - cpu,
        {
            if let Some(t) = self.current[cpu] {
                if t == task {
                    assert(self@.current[cpu as int] == Some(task));
                    return true;
                }
            }
            cpu = cpu + 1;
        }
        false
    }

    /// The machine work for a switch from `prev` to `next`.
    pub(crate) fn switch_of(&self, prev: AxTaskRef, next: AxTaskRef) -> (r: Switch)
        requires
            self@.valid(next),
        ensures
            r == self@.switch_of(prev, next),
    {
        let token = self.tasks[next].inner.page_table_token;
        Switch {
            prev,
            next,
            page_table: if self.config.monolithic && token != 0 {
                Some(token)
            } else {
                None
            },
            account_time: self.config.monolithic,
        }
    }

    /// Puts a task into a state.
    pub(crate) fn set_state(&mut self, task: AxTaskRef, state: TaskState)
        requires
            old(self).wf(),
            old(self)@.valid(task),
        ensures
            final(self).wf(),
            old(self)@.same_frame(final(self)@),
            final(self)@ == old(self)@.with_state(task, state),
    {
        self.tasks[task].set_state(state);
    }

    /// Says whether preemption of a task is pending.
    pub(crate) fn set_preempt_pending(&mut self, task: AxTaskRef, pending: bool)
        requires
            old(self).wf(),
            old(self)@.valid(task),
        ensures
            final(self).wf(),
            old(self)@.same_frame(final(self)@),
            final(self)@ == old(self)@.with_pending(task, pending),
    {
        self.tasks[task].inner.preempt_pending = pending;
    }

    /// Lets CPU `cpu` run a task.
    pub(crate) fn set_current(&mut self, cpu: usize, task: AxTaskRef)
        requires
            old(self).wf(),
            old(self)@.valid(task),
            cpu < old(self)@.current.len(),
        ensures
            final(self).wf(),
            old(self)@.same_frame(final(self)@),
            final(self)@ == old(self)@.with_current(cpu, task),
    {
        self.current[cpu] = Some(task);
    }
}

/// Whoever is left by a filter was there before.
pub proof fn lemma_filtered_valid(v: SystemView, q: Seq<AxTaskRef>, p: spec_fn(AxTaskRef) -> bool)
    requires
        v.all_valid(q),
    ensures
        v.all_valid(q.filter(p)),
    decreases q.len(),
{
    reveal(Seq::filter);
    if q.len() > 0 {
        lemma_filtered_valid(v, q.drop_last(), p);
    }
}

/// A system whose run queue lost its first task to that task.
pub proof fn lemma_picked(pre: SystemView)
    requires
        pre.wf(),
        pre.run_queue.len() > 0,
    ensures
        picked(pre).wf(),
        pre.same_frame(picked(pre)),
        pre.valid(pre.run_queue[0].id),
{
    let q = pre.run_queue;
    assert(listed(q, q[0].id));
    assert(q.rest().list =~= q.list.remove(0));
    assert(removed(q, q[0].id, q.rest()));
    lemma_removed(q, q[0].id, q.rest());
    lemma_held_sound(q, pre.slots, 0);
    assert forall|i: int| 0 <= i < q.rest().list.len() implies sound(
        q.rest(),
        #[trigger] q.rest().list[i],
    ) by {
        assert(q.rest().list[i] == q.list[i + 1]);
        lemma_sound_lower(q, q.rest(), q.list[i + 1]);
    }
    lemma_queue_sound(q, pre.slots, q.rest());
    lemma_sound_lower(q, q.rest(), q.list[0]);
    lemma_slot_sound(q.rest(), pre.slots, q[0].id, Slot::Held(q[0]));
}

/// A task with its item put into the run queue.
pub proof fn lemma_into_run_queue(pre: SystemView, task: AxTaskRef, e: Entry, post: SystemView)
    requires
        pre.wf(),
        pre.valid(task),
        pre.slots[task as int] is Held,
        e.id == task,
        akin(pre.slots[task as int]->Held_0, e),
        fits(e),
        0 <= start(post.run_queue) <= start(pre.run_queue),
        inserted(pre.run_queue, e, post.run_queue),
        post == (SystemView { run_queue: post.run_queue, ..pre }).with_slot(task, Slot::RunQueue),
    ensures
        post.wf(),
        pre.same_frame(post),
{
    lemma_inserted(pre.run_queue, e, post.run_queue);
    lemma_held_sound(pre.run_queue, pre.slots, task);
    lemma_joined_sound(
        pre.run_queue,
        post.run_queue,
        pre.run_queue,
        pre.slots[task as int]->Held_0,
        e,
        post.run_queue,
    );
    lemma_queue_sound(pre.run_queue, pre.slots, post.run_queue);
    lemma_slot_sound(post.run_queue, pre.slots, task, Slot::RunQueue);
}

} // verus!
