//! Processors.
use crate::cpumask::CpuMask;
use crate::kernel::{lemma_waiting_sound, waiting_sound};
use crate::kernel::{processor_view, processor_wf, Kernel, KernelView};
use crate::sched::{akin, countable, fits as entry_fits, lemma_queue_len, lemma_sound_at_zero, sound, start};
use crate::sched;
use crate::sched::{inserted, lemma_inserted, lemma_removed, listed, removed};
use crate::sched::{BaseScheduler, Entry, Ready};
use crate::system::{lemma_held_sound, lemma_joined_sound, lemma_slot_sound};
use crate::system::{AxTaskRef, Entity, Slot};
use crate::task::{fits, is_kernel_task, new_kernel_task, Allocation};
use crate::wait_queue::WaitQueue;
use std::collections::VecDeque;
use vstd::prelude::*;

verus! {

/// The task that a processor has not finished switching away from.
#[derive(Clone, Copy, Debug, PartialEq, Eq, Structural)]
pub struct PrevCtxSave(pub Option<AxTaskRef>);

/// What a CPU schedules its tasks with.
pub struct Processor<S: BaseScheduler> {
    /// The tasks that wait for this CPU.
    pub scheduler: S,
    /// Exited tasks that are still to be dropped.
    pub exited_tasks: VecDeque<AxTaskRef>,
    /// The task that the last switch came from.
    pub prev_ctx_save: PrevCtxSave,
    /// Where the task waits that drops exited tasks.
    pub gc_wait: WaitQueue,
    /// The task that runs when no other can.
    pub idle_task: AxTaskRef,
    /// The task that drops exited tasks.
    pub gc_task: AxTaskRef,
    /// The tops of the stacks that are free to be switched to.
    pub stack_pool: Vec<usize>,
    /// The top of the stack from the pool that is in use.
    pub curr_stack: Option<usize>,
}

/// What a processor holds.
pub struct ProcessorView {
    pub ready: Ready,
    pub exited: Seq<AxTaskRef>,
    pub prev: Option<AxTaskRef>,
    pub gc_waiters: Seq<AxTaskRef>,
    pub idle: AxTaskRef,
    pub gc: AxTaskRef,
    pub stacks: Seq<usize>,
    pub curr_stack: Option<usize>,
}

impl<S: BaseScheduler> View for Processor<S> {
    type V = ProcessorView;

    open spec fn view(&self) -> ProcessorView {
        ProcessorView {
            ready: self.scheduler.ready(),
            exited: self.exited_tasks@,
            prev: self.prev_ctx_save.0,
            gc_waiters: self.gc_wait@,
            idle: self.idle_task,
            gc: self.gc_task,
            stacks: self.stack_pool@,
            curr_stack: self.curr_stack,
        }
    }
}

impl PrevCtxSave {
    /// A switch away from a task.
    pub(crate) fn new(prev_task: AxTaskRef) -> (r: Self)
        ensures
            r.0 == Some(prev_task),
    {
        PrevCtxSave(Some(prev_task))
    }

    /// No switch.
    pub(crate) fn new_empty() -> (r: Self)
        ensures
            r.0 is None,
    {
        PrevCtxSave(None)
    }

    /// The task that the switch came from; it is forgotten.
    pub(crate) fn take_prev_task(&mut self) -> (r: Option<AxTaskRef>)
        ensures
            r == old(self).0,
            final(self).0 is None,
    {
        self.0.take()
    }
}

/// Adding the task `task` may turn the ready queue of CPU `cpu` into `ready`. A task that is in a ready
/// queue already is not added.
pub open spec fn may_enqueue_on<S: BaseScheduler>(
    pre: KernelView,
    cpu: usize,
    task: AxTaskRef,
    ready: Ready,
) -> bool {
    match pre.sys.slots[task as int] {
        Slot::Held(e) => S::adds(e, pre.proc(cpu).ready, ready),
        _ => ready == pre.proc(cpu).ready,
    }
}

/// Putting the task `task`, which has just run, back may turn the ready queue of CPU `cpu` into
/// `ready`. A task that is in a ready queue already is not put back.
pub open spec fn may_requeue_on<S: BaseScheduler>(
    pre: KernelView,
    cpu: usize,
    task: AxTaskRef,
    preempt: bool,
    ready: Ready,
) -> bool {
    match pre.sys.slots[task as int] {
        Slot::Held(e) => S::puts(e, preempt, pre.proc(cpu).ready, ready),
        _ => ready == pre.proc(cpu).ready,
    }
}

/// The kernel once the task `task` is in the ready queue of CPU `cpu`, which is now `ready`; nothing
/// changes if the task was in a ready queue already.
pub open spec fn queued_on(
    pre: KernelView,
    cpu: usize,
    task: AxTaskRef,
    ready: Ready,
) -> KernelView {
    match pre.sys.slots[task as int] {
        Slot::Held(_) => pre.with_sys(pre.sys.with_slot(task, Slot::Processor(cpu))).with_proc(
            cpu,
            ProcessorView { ready, ..pre.proc(cpu) },
        ),
        _ => pre,
    }
}

/// The task `task` goes into the ready queue of CPU `cpu`, unless it is in a ready queue already.
pub open spec fn enqueued_on<S: BaseScheduler>(
    pre: KernelView,
    cpu: usize,
    task: AxTaskRef,
    post: KernelView,
) -> bool {
    &&& may_enqueue_on::<S>(pre, cpu, task, post.proc(cpu).ready)
    &&& post == queued_on(pre, cpu, task, post.proc(cpu).ready)
}

/// The task `task`, which has just run, goes back into the ready queue of CPU `cpu`, unless it is in a
/// ready queue already.
pub open spec fn requeued_on<S: BaseScheduler>(
    pre: KernelView,
    cpu: usize,
    task: AxTaskRef,
    preempt: bool,
    post: KernelView,
) -> bool {
    &&& may_requeue_on::<S>(pre, cpu, task, preempt, post.proc(cpu).ready)
    &&& post == queued_on(pre, cpu, task, post.proc(cpu).ready)
}

/// The first task of the ready queue of CPU `cpu` is taken out, if there is one.
pub open spec fn picked_on(pre: KernelView, cpu: usize) -> KernelView {
    let p = pre.proc(cpu);
    if p.ready.len() == 0 {
        pre
    } else {
        let e = p.ready[0];
        pre.with_sys(pre.sys.with_slot(e.id, Slot::Held(e))).with_proc(
            cpu,
            ProcessorView { ready: p.ready.rest(), ..p },
        )
    }
}

/// The task that CPU `cpu` takes next: the first of its ready queue, or else its idle task.
pub open spec fn next_on(pre: KernelView, cpu: usize) -> AxTaskRef {
    let p = pre.proc(cpu);
    if p.ready.len() == 0 {
        p.idle
    } else {
        p.ready[0].id
    }
}

/// A task with its item put into the ready queue of CPU `cpu`.
pub proof fn lemma_into_processor(
    pre: KernelView,
    cpu: usize,
    task: AxTaskRef,
    e: Entry,
    ready: Ready,
)
    requires
        pre.wf(),
        pre.has_processor(cpu),
        pre.sys.valid(task),
        pre.sys.slots[task as int] is Held,
        e.id == task,
        akin(pre.sys.slots[task as int]->Held_0, e),
        entry_fits(e),
        start(ready) == 0,
        inserted(pre.proc(cpu).ready, e, ready),
    ensures
        queued_on(pre, cpu, task, ready).wf(),
{
    let post = queued_on(pre, cpu, task, ready);
    let p = pre.proc(cpu);
    lemma_inserted(p.ready, e, ready);
    let rq = pre.sys.run_queue;
    lemma_held_sound(rq, pre.sys.slots, task);
    lemma_slot_sound(rq, pre.sys.slots, task, Slot::Processor(cpu));
    assert(post.sys.wf());
    assert(waiting_sound(rq, ready)) by {
        lemma_waiting_sound(rq, p.ready);
        lemma_joined_sound(rq, rq, p.ready, pre.sys.slots[task as int]->Held_0, e, ready);
        reveal(waiting_sound);
    }
    assert forall|c: int|
        0 <= c < post.processors.len() && (
        #[trigger] post.processors[c]) is Some implies processor_wf(
        post.sys,
        c as usize,
        post.processors[c]->0,
    ) by {
        assert(pre.processors[c] is Some);
        let q = post.processors[c]->0.ready;
        assert forall|t: usize| #[trigger] listed(q, t) <==> (post.sys.valid(t)
            && post.sys.slots[t as int] == Slot::Processor(c as usize)) by {
            assert(listed(pre.processors[c]->0.ready, t) <==> (pre.sys.valid(t)
                && pre.sys.slots[t as int] == Slot::Processor(c as usize)));
        }
    }
    assert forall|t: int|
        0 <= t < post.sys.slots.len()
            && (#[trigger] post.sys.slots[t]) is Processor implies post.has_processor(
        post.sys.slots[t]->Processor_0,
    ) by {
        if t != task {
            assert(pre.sys.slots[t] is Processor);
        }
    }
}

/// The task `task`, which has its item, fits into the ready queue of CPU `cpu`.
pub proof fn lemma_ready_queue(pre: KernelView, cpu: usize, task: AxTaskRef)
    requires
        pre.wf(),
        pre.has_processor(cpu),
        pre.sys.valid(task),
        pre.sys.slots[task as int] is Held,
    ensures
        countable(pre.proc(cpu).ready.len()),
        start(pre.proc(cpu).ready) == 0,
        sched::all_fit(pre.proc(cpu).ready),
        entry_fits(pre.sys.slots[task as int]->Held_0),
        sound(pre.proc(cpu).ready, pre.sys.slots[task as int]->Held_0),
        !listed(pre.proc(cpu).ready, task),
{
    let p = pre.proc(cpu);
    let rq = pre.sys.run_queue;
    assert(processor_wf(pre.sys, cpu, p)) by {
        assert(pre.processors[cpu as int] is Some);
    }
    lemma_waiting_sound(rq, p.ready);
    lemma_held_sound(rq, pre.sys.slots, task);
    lemma_sound_at_zero(p.ready, pre.sys.slots[task as int]->Held_0);
    lemma_queue_len(p.ready, pre.sys.tasks.len());
}

/// A task taken out of the ready queue of CPU `cpu`.
pub proof fn lemma_picked_on(pre: KernelView, cpu: usize)
    requires
        pre.wf(),
        pre.has_processor(cpu),
    ensures
        picked_on(pre, cpu).wf(),
        pre.sys.valid(next_on(pre, cpu)),
{
    let post = picked_on(pre, cpu);
    let p = pre.proc(cpu);
    if p.ready.len() > 0 {
        let task = p.ready[0].id;
        assert(listed(p.ready, task));
        assert(p.ready.rest().list =~= p.ready.list.remove(0));
        assert(removed(p.ready, task, p.ready.rest()));
        lemma_removed(p.ready, task, p.ready.rest());
        let rq = pre.sys.run_queue;
        lemma_waiting_sound(rq, p.ready);
        lemma_slot_sound(rq, pre.sys.slots, task, Slot::Held(p.ready[0]));
        assert(post.sys.wf());
        assert(waiting_sound(rq, p.ready.rest())) by {
            reveal(waiting_sound);
            let rest = p.ready.rest();
            assert forall|i: int| 0 <= i < rest.list.len() implies sound(rq, #[trigger] rest.list[i]) by {
                assert(rest.list[i] == p.ready.list[i + 1]);
            }
        }
        assert forall|c: int|
            0 <= c < post.processors.len() && (
            #[trigger] post.processors[c]) is Some implies processor_wf(
            post.sys,
            c as usize,
            post.processors[c]->0,
        ) by {
            assert(pre.processors[c] is Some);
            let q = post.processors[c]->0.ready;
            assert forall|t: usize| #[trigger] listed(q, t) <==> (post.sys.valid(t)
                && post.sys.slots[t as int] == Slot::Processor(c as usize)) by {
                assert(listed(pre.processors[c]->0.ready, t) <==> (pre.sys.valid(t)
                    && pre.sys.slots[t as int] == Slot::Processor(c as usize)));
            }
        }
        assert forall|t: int|
            0 <= t < post.sys.slots.len()
                && (#[trigger] post.sys.slots[t]) is Processor implies post.has_processor(
            post.sys.slots[t]->Processor_0,
        ) by {
            assert(t != task);
            assert(pre.sys.slots[t] is Processor);
        }
    }
}

/// A change of a processor apart from its ready queue keeps the whole sound.
pub proof fn lemma_proc_changed(pre: KernelView, cpu: usize, p: ProcessorView)
    requires
        pre.wf(),
        pre.has_processor(cpu),
        p.ready == pre.proc(cpu).ready,
        processor_wf(pre.sys, cpu, p),
    ensures
        pre.with_proc(cpu, p).wf(),
{
    let post = pre.with_proc(cpu, p);
    assert forall|c: int|
        0 <= c < post.processors.len() && (
        #[trigger] post.processors[c]) is Some implies processor_wf(
        post.sys,
        c as usize,
        post.processors[c]->0,
    ) by {
        assert(pre.processors[c] is Some);
    }
    assert forall|t: int|
        0 <= t < post.sys.slots.len()
            && (#[trigger] post.sys.slots[t]) is Processor implies post.has_processor(
        post.sys.slots[t]->Processor_0,
    ) by {
        assert(pre.sys.slots[t] is Processor);
    }
}

impl<S: BaseScheduler> Kernel<S> {
    /// Adds a task to the ready queue of a processor, unless it is in a ready queue already.
    pub(crate) fn enqueue_on(&mut self, cpu: usize, task: AxTaskRef)
        requires
            old(self).wf(),
            old(self)@.has_processor(cpu),
            old(self)@.sys.valid(task),
        ensures
            final(self).wf(),
            final(self)@.has_processor(cpu),
            enqueued_on::<S>(old(self)@, cpu, task, final(self)@),
    {
        let ghost pre = self@;
        let mut entity: Entity<S> = Entity::RunQueue;
        assert(self.system.entities@.len() == pre.sys.slots.len());
        assert(pre.sys.slots[task as int] == self.system.entities@[task as int].slot());
        assert(self.processors@.len() == pre.processors.len());
        assert(pre.processors[cpu as int] == processor_view(self.processors@[cpu as int]));
        core::mem::swap(&mut entity, &mut self.system.entities[task]);
        match entity {
            Entity::Held(item) => {
                self.system.entities[task] = Entity::Processor(cpu);
                proof {
                    lemma_ready_queue(pre, cpu, task);
                }
                match self.processors[cpu].as_mut() {
                    Some(p) => {
                        p.scheduler.add_task(item);
                    },
                    None => {},
                }
                proof {
                    let e = S::entry(item);
                    let ready = self@.proc(cpu).ready;
                    S::adds_inserts(e, pre.proc(cpu).ready, ready);
                    let x = choose|x: Entry|
                        x.id == task && akin(e, x) && entry_fits(x) && #[trigger] inserted(
                            pre.proc(cpu).ready,
                            x,
                            ready,
                        );
                    lemma_into_processor(pre, cpu, task, x, ready);
                    let post = queued_on(pre, cpu, task, ready);
                    assert(self@.sys.slots =~= post.sys.slots);
                    assert(self@.processors =~= post.processors);
                }
            },
            other => {
                self.system.entities[task] = other;
                assert(self@.sys.slots =~= pre.sys.slots);
            },
        }
    }

    /// Puts a task that has just run back into the ready queue of a processor, unless it is in a ready
    /// queue already.
    pub(crate) fn requeue_on(&mut self, cpu: usize, task: AxTaskRef, preempt: bool)
        requires
            old(self).wf(),
            old(self)@.has_processor(cpu),
            old(self)@.sys.valid(task),
        ensures
            final(self).wf(),
            final(self)@.has_processor(cpu),
            requeued_on::<S>(old(self)@, cpu, task, preempt, final(self)@),
    {
        let ghost pre = self@;
        let mut entity: Entity<S> = Entity::RunQueue;
        assert(self.system.entities@.len() == pre.sys.slots.len());
        assert(pre.sys.slots[task as int] == self.system.entities@[task as int].slot());
        assert(self.processors@.len() == pre.processors.len());
        assert(pre.processors[cpu as int] == processor_view(self.processors@[cpu as int]));
        core::mem::swap(&mut entity, &mut self.system.entities[task]);
        match entity {
            Entity::Held(item) => {
                self.system.entities[task] = Entity::Processor(cpu);
                proof {
                    lemma_ready_queue(pre, cpu, task);
                }
                match self.processors[cpu].as_mut() {
                    Some(p) => {
                        p.scheduler.put_prev_task(item, preempt);
                    },
                    None => {},
                }
                proof {
                    let e = S::entry(item);
                    let ready = self@.proc(cpu).ready;
                    S::puts_inserts(e, preempt, pre.proc(cpu).ready, ready);
                    let x = choose|x: Entry|
                        x.id == task && akin(e, x) && entry_fits(x) && #[trigger] inserted(
                            pre.proc(cpu).ready,
                            x,
                            ready,
                        );
                    lemma_into_processor(pre, cpu, task, x, ready);
                    let post = queued_on(pre, cpu, task, ready);
                    assert(self@.sys.slots =~= post.sys.slots);
                    assert(self@.processors =~= post.processors);
                }
            },
            other => {
                self.system.entities[task] = other;
                assert(self@.sys.slots =~= pre.sys.slots);
            },
        }
    }

    /// Takes the next task for a processor: the first of its ready queue, or else its idle task.
    pub(crate) fn pick_on(&mut self, cpu: usize) -> (task: AxTaskRef)
        requires
            old(self).wf(),
            old(self)@.has_processor(cpu),
        ensures
            final(self).wf(),
            final(self)@.has_processor(cpu),
            task == next_on(old(self)@, cpu),
            final(self)@.sys.valid(task),
            final(self)@ == picked_on(old(self)@, cpu),
    {
        let ghost pre = self@;
        proof {
            lemma_picked_on(pre, cpu);
        }
        assert(self.processors@.len() == pre.processors.len());
        assert(pre.processors[cpu as int] == processor_view(self.processors@[cpu as int]));
        let (item, idle) = match self.processors[cpu].as_mut() {
            Some(p) => (p.scheduler.pick_next_task(), p.idle_task),
            None => (None, 0),
        };
        match item {
            None => {
                assert(self@.processors =~= pre.processors);
                idle
            },
            Some(item) => {
                let task = S::item_id(&item);
                assert(self.system.entities@.len() == pre.sys.slots.len());
                self.system.put_item(task, item);
                assert(self@.processors =~= picked_on(pre, cpu).processors);
                task
            },
        }
    }
}

impl<S: BaseScheduler> Processor<S> {
    /// A processor with the given idle task; its task that drops exited tasks is made for it.
    pub fn new(k: &mut Kernel<S>, idle_task: AxTaskRef, gc_alloc: Allocation) -> (r: Self)
        requires
            old(k).wf(),
            countable(old(k)@.sys.tasks.len() + 1),
            fits(old(k)@.sys.config, gc_alloc),
        ensures
            final(k).wf(),
            r.gc_task == old(k)@.sys.tasks.len(),
            final(k)@.sys.valid(r.gc_task),
            r@ == empty_processor(idle_task, r.gc_task),
            final(k)@ == old(k)@.with_new_task(
                final(k)@.sys.tasks[r.gc_task as int],
                S::initial(r.gc_task),
            ),
            is_kernel_task(
                final(k)@.sys.tasks[r.gc_task as int],
                old(k)@.sys.config,
                old(k)@.processors.len() as usize,
                "gc"@,
                old(k)@.sys.config.task_stack_size,
                gc_alloc,
            ),
    {
        let stack_size = k.system.config.task_stack_size;
        let gc_task = new_kernel_task(k, "gc", stack_size, gc_alloc);
        Processor {
            scheduler: S::new(),
            exited_tasks: VecDeque::new(),
            prev_ctx_save: PrevCtxSave::new_empty(),
            gc_wait: WaitQueue::new(),
            idle_task,
            gc_task,
            stack_pool: Vec::new(),
            curr_stack: None,
        }
    }

    /// The task that runs when no other can.
    pub fn idle_task(&self) -> (r: AxTaskRef)
        ensures
            r == self@.idle,
    {
        self.idle_task
    }

    /// Notes which task a switch comes from.
    pub(crate) fn set_prev_ctx_save(&mut self, prev_save: PrevCtxSave)
        ensures
            final(self)@ == (ProcessorView { prev: prev_save.0, ..old(self)@ }),
    {
        self.prev_ctx_save = prev_save;
    }

    /// Forgets the exited tasks; they are dropped.
    pub fn clean(&mut self)
        ensures
            final(self)@ == (ProcessorView { exited: Seq::empty(), ..old(self)@ }),
    {
        self.exited_tasks.clear();
    }

    /// Called before the kernel ends; there is nothing to clean then.
    pub fn clean_all() {
    }
}

/// A processor that has done nothing yet.
pub open spec fn empty_processor(idle: AxTaskRef, gc: AxTaskRef) -> ProcessorView {
    ProcessorView {
        ready: Ready::none(),
        exited: Seq::empty(),
        prev: None,
        gc_waiters: Seq::empty(),
        idle,
        gc,
        stacks: Seq::empty(),
        curr_stack: None,
    }
}

/// The processor that the `j`-th try after `rotor` comes to, of `cpus`. The counter wraps around.
pub open spec fn candidate(rotor: usize, j: nat, cpus: nat) -> int {
    ((rotor + j) % (usize::MAX + 1)) % (cpus as int)
}

/// The `n`-th try after `rotor` is the first that comes to a processor in `mask`.
pub open spec fn first_fit(rotor: usize, mask: CpuMask, cpus: nat, n: nat) -> bool {
    &&& mask.holds(candidate(rotor, n, cpus))
    &&& forall|j: nat| j < n ==> !mask.holds(#[trigger] candidate(rotor, j, cpus))
}

/// Some processor of `cpus` is in `mask`.
pub open spec fn has_fit(mask: CpuMask, cpus: nat) -> bool {
    exists|c: int| 0 <= c < cpus && #[trigger] mask.holds(c)
}

/// The `n`-th try finds a processor for the first time: which one it is, and where the next search
/// starts.
pub open spec fn selected(pre: KernelView, mask: CpuMask, index: usize, post: KernelView) -> bool {
    exists|n: nat|
        {
            &&& #[trigger] first_fit(pre.rotor, mask, pre.processors.len(), n)
            &&& index == candidate(pre.rotor, n, pre.processors.len())
            &&& post == (KernelView {
                rotor: ((pre.rotor + n + 1) % (usize::MAX + 1)) as usize,
                ..pre
            })
        }
}

/// The processor that is chosen exists and is in the mask.
pub proof fn lemma_selected(pre: KernelView, mask: CpuMask, index: usize, post: KernelView)
    requires
        has_fit(mask, pre.processors.len()),
        selected(pre, mask, index, post),
    ensures
        index < pre.processors.len(),
        mask.holds(index as int),
{
    let n = choose|n: nat|
        {
            &&& #[trigger] first_fit(pre.rotor, mask, pre.processors.len(), n)
            &&& index == candidate(pre.rotor, n, pre.processors.len())
        };
    let x = (pre.rotor + n) % (usize::MAX + 1);
    vstd::arithmetic::div_mod::lemma_mod_bound(x, pre.processors.len() as int);
}

/// Chooses a processor out of `cpumask`, in turn.
pub fn select_processor_index<S: BaseScheduler>(k: &mut Kernel<S>, cpumask: CpuMask) -> (index:
    usize)
    requires
        old(k).wf(),
        has_fit(cpumask, old(k)@.processors.len()),
    ensures
        final(k).wf(),
        index < old(k)@.processors.len(),
        cpumask.holds(index as int),
        selected(old(k)@, cpumask, index, final(k)@),
{
    let ghost pre = k@;
    let ghost cpus = pre.processors.len();
    let ghost rotor = pre.rotor;
    assert(k.processors@.len() == cpus);
    let smp = k.processors.len();
    let ghost c = choose|c: int| 0 <= c < cpus && #[trigger] cpumask.holds(c);
    let ghost bound = (usize::MAX + 1 - rotor + c) as nat;
    proof {
        lemma_wraps_to(rotor, c, cpus);
        vstd::arithmetic::div_mod::lemma_small_mod(rotor as nat, (usize::MAX + 1) as nat);
    }
    let ghost mut n: nat = 0;
    loop
        invariant
            k@ == (KernelView {
                rotor: ((rotor + n) % (usize::MAX + 1)) as usize,
                ..pre
            }),
            pre == old(k)@,
            pre.wf(),
            rotor == pre.rotor,
            cpus == pre.processors.len(),
            smp == cpus,
            smp > 0,
            n <= bound,
            cpumask.holds(candidate(rotor, bound, cpus)),
            forall|j: nat| j < n ==> !cpumask.holds(#[trigger] candidate(rotor, j, cpus)),
        decreases bound - n,
    {
        let counter = k.processor_index;
        k.processor_index = counter.wrapping_add(1);
        let index = counter % smp;
        assert(index == candidate(rotor, n, cpus));
        proof {
            lemma_counts_on(rotor, n);
        }
        if cpumask.get(index) {
            assert(first_fit(rotor, cpumask, cpus, n));
            return index;
        }
        proof {
            n = n + 1;
        }
    }
}

/// A search that wraps around comes to the processor `c` in due course.
proof fn lemma_wraps_to(rotor: usize, c: int, cpus: nat)
    requires
        0 <= c < cpus <= usize::MAX,
    ensures
        candidate(rotor, (usize::MAX + 1 - rotor + c) as nat, cpus) == c,
{
    let m: int = usize::MAX + 1;
    let j = (m - rotor + c) as nat;
    assert(rotor + j == m + c);
    assert((m + c) % m == c) by (nonlinear_arith)
        requires
            0 <= c < m,
    ;
    assert(c % (cpus as int) == c) by (nonlinear_arith)
        requires
            0 <= c < cpus,
    ;
}

/// Counting on by one, with wrapping.
proof fn lemma_counts_on(rotor: usize, n: nat)
    ensures
        ({
            let now = ((rotor + n) % (usize::MAX + 1)) as usize;
            now.wrapping_add(1) == (rotor + n + 1) % (usize::MAX + 1)
        }),
{
    let m: int = usize::MAX + 1;
    let x: int = rotor + n;
    let y: int = x % m;
    assert(0 <= y < m) by (nonlinear_arith)
        requires
            y == x % m,
            m > 0,
    ;
    assert((x + 1) % m == if y + 1 == m {
        0
    } else {
        y + 1
    }) by (nonlinear_arith)
        requires
            y == x % m,
            0 <= y < m,
            m > 0,
    ;
}

/// Processors take turns: where a task may run on all of them, the search takes the first that it comes
/// to, and the next search starts one further.
pub proof fn lemma_takes_turns(pre: KernelView, mask: CpuMask, index: usize, post: KernelView)
    requires
        pre.processors.len() > 0,
        forall|c: int| 0 <= c < pre.processors.len() ==> #[trigger] mask.holds(c),
        selected(pre, mask, index, post),
    ensures
        index == pre.rotor as int % pre.processors.len() as int,
        post.rotor == if pre.rotor < usize::MAX {
            (pre.rotor + 1) as usize
        } else {
            0
        },
{
    let cpus = pre.processors.len();
    let n = choose|n: nat|
        {
            &&& #[trigger] first_fit(pre.rotor, mask, cpus, n)
            &&& index == candidate(pre.rotor, n, cpus)
            &&& post == (KernelView {
                rotor: ((pre.rotor + n + 1) % (usize::MAX + 1)) as usize,
                ..pre
            })
        };
    let first = candidate(pre.rotor, 0, cpus);
    vstd::arithmetic::div_mod::lemma_small_mod(pre.rotor as nat, (usize::MAX + 1) as nat);
    vstd::arithmetic::div_mod::lemma_mod_bound(pre.rotor as int, cpus as int);
    assert(mask.holds(first));
    assert(n == 0);
    if pre.rotor < usize::MAX {
        vstd::arithmetic::div_mod::lemma_small_mod(
            (pre.rotor + 1) as nat,
            (usize::MAX + 1) as nat,
        );
    } else {
        vstd::arithmetic::div_mod::lemma_mod_self_0(usize::MAX + 1);
    }
}

} // verus!
