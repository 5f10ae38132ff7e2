//! All that the task manager of a kernel knows.
use crate::config::Config;
use crate::cpumask::MAX_CPUS;
use crate::processor::{Processor, ProcessorView};
use crate::run_queue::AxRunQueue;
use crate::sched::{all_fit, countable, lemma_sound_lower, sound, start};
use crate::sched::{distinct, listed, BaseScheduler, Entry, Ready};
use crate::system::{items_sound, lemma_held_sound, lemma_new_slot_sound};
use crate::system::{AxTaskRef, Entity, Slot, System, SystemView};
use crate::task::ScheduleTask;
use crate::wait_queue::WaitQueue;
use std::collections::{BTreeMap, VecDeque};
use vstd::prelude::*;

verus! {

/// The task manager of a kernel.
pub struct Kernel<S: BaseScheduler> {
    /// The tasks, who runs where, and the shared run queue.
    pub system: System<S>,
    /// Exited tasks that are still to be dropped.
    pub exited_tasks: VecDeque<AxTaskRef>,
    /// Where the task waits that drops exited tasks.
    pub wait_for_exit: WaitQueue,
    /// For each task that has not exited, who waits for its exit.
    pub wait_for_task_exits: BTreeMap<AxTaskRef, WaitQueue>,
    /// The processors, by CPU; `None` until the CPU has been initialized.
    pub processors: Vec<Option<Processor<S>>>,
    /// Where the search for a processor for a task starts.
    pub processor_index: usize,
}

/// What a task manager holds.
pub struct KernelView {
    pub sys: SystemView,
    pub exited: Seq<AxTaskRef>,
    pub gc_waiters: Seq<AxTaskRef>,
    pub joins: Map<AxTaskRef, Seq<AxTaskRef>>,
    pub processors: Seq<Option<ProcessorView>>,
    pub rotor: usize,
}

impl KernelView {
    /// Only the system changes.
    pub open spec fn with_sys(self, sys: SystemView) -> KernelView {
        KernelView { sys, ..self }
    }

    /// CPU `cpu` has a processor.
    pub open spec fn has_processor(self, cpu: usize) -> bool {
        cpu < self.processors.len() && self.processors[cpu as int] is Some
    }

    /// The processor of CPU `cpu`.
    pub open spec fn proc(self, cpu: usize) -> ProcessorView {
        self.processors[cpu as int]->0
    }

    /// The processor of CPU `cpu` becomes `p`.
    pub open spec fn with_proc(self, cpu: usize, p: ProcessorView) -> KernelView {
        KernelView { processors: self.processors.update(cpu as int, Some(p)), ..self }
    }

    /// There is a new task `t`, which has the scheduling item `e`; nobody waits for its exit yet.
    pub open spec fn with_new_task(self, t: ScheduleTask, e: Entry) -> KernelView {
        KernelView {
            sys: SystemView {
                tasks: self.sys.tasks.push(t),
                slots: self.sys.slots.push(Slot::Held(e)),
                ..self.sys
            },
            joins: self.joins.insert(
                self.sys.tasks.len() as usize,
                Seq::<AxTaskRef>::empty(),
            ),
            ..self
        }
    }

    /// What always holds: the system and the processors agree, and whoever is named exists.
    pub open spec fn wf(self) -> bool {
        &&& self.sys.wf()
        &&& self.processors.len() == self.sys.current.len()
        &&& self.processors.len() <= MAX_CPUS
        &&& self.sys.all_valid(self.exited)
        &&& self.sys.all_valid(self.gc_waiters)
        &&& forall|t: AxTaskRef| #[trigger]
            self.joins.contains_key(t) ==> self.sys.all_valid(self.joins[t])
        &&& forall|c: int|
            0 <= c < self.processors.len() && (#[trigger] self.processors[c]) is Some
                ==> processor_wf(self.sys, c as usize, self.processors[c]->0)
        &&& forall|t: int|
            0 <= t < self.sys.slots.len() && (#[trigger] self.sys.slots[t]) is Processor
                ==> self.has_processor(self.sys.slots[t]->Processor_0)
    }
}

/// The processor `p` of CPU `cpu` agrees with the system.
pub open spec fn processor_wf(sys: SystemView, cpu: usize, p: ProcessorView) -> bool {
    &&& distinct(p.ready)
    &&& waiting_sound(sys.run_queue, p.ready)
    &&& forall|t: usize| #[trigger]
        listed(p.ready, t) <==> (sys.valid(t) && sys.slots[t as int] == Slot::Processor(cpu))
    &&& sys.all_valid(p.exited)
    &&& sys.all_valid(p.gc_waiters)
    &&& sys.valid(p.idle)
    &&& sys.valid(p.gc)
    &&& p.prev is Some ==> sys.valid(p.prev->0)
}

/// The run times of the items in the ready queue `p` of a processor can be computed, also once they are
/// added to the run queue `q`; whoever is added to `p` starts from 0.
#[verifier::opaque]
pub open spec fn waiting_sound(q: Ready, p: Ready) -> bool {
    &&& start(p) == 0
    &&& forall|i: int| 0 <= i < p.list.len() ==> sound(q, #[trigger] p.list[i])
}

/// What is known of the ready queue of a processor.
pub proof fn lemma_waiting_sound(q: Ready, p: Ready)
    requires
        waiting_sound(q, p),
    ensures
        start(p) == 0,
        all_fit(p),
        forall|i: int| 0 <= i < p.list.len() ==> sound(q, #[trigger] p.list[i]),
{
    reveal(waiting_sound);
}

/// An empty ready queue that nothing was put into.
pub proof fn lemma_nothing_waits(q: Ready)
    ensures
        waiting_sound(q, Ready::none()),
{
    reveal(waiting_sound);
}

impl<S: BaseScheduler> View for Kernel<S> {
    type V = KernelView;

    open spec fn view(&self) -> KernelView {
        KernelView {
            sys: self.system@,
            exited: self.exited_tasks@,
            gc_waiters: self.wait_for_exit@,
            joins: self.wait_for_task_exits@.map_values(|w: WaitQueue| w@),
            processors: self.processors@.map_values(|p: Option<Processor<S>>| processor_view(p)),
            rotor: self.processor_index,
        }
    }
}

/// What a processor holds, if there is one.
pub open spec fn processor_view<S: BaseScheduler>(p: Option<Processor<S>>) -> Option<ProcessorView> {
    match p {
        Some(p) => Some(p@),
        None => None,
    }
}

/// A change of the system that leaves the ready queues of the processors alone keeps the whole sound.
pub proof fn lemma_sys_changed(pre: KernelView, sys: SystemView)
    requires
        pre.wf(),
        sys.wf(),
        pre.sys.same_frame(sys),
    ensures
        pre.with_sys(sys).wf(),
{
    lemma_held_sound(sys.run_queue, sys.slots, 0);
    assert forall|c: int|
        0 <= c < pre.processors.len() && (#[trigger] pre.processors[c]) is Some implies waiting_sound(
        sys.run_queue,
        pre.processors[c]->0.ready,
    ) by {
        lemma_waiting_kept(pre.sys.run_queue, sys.run_queue, pre.processors[c]->0.ready);
    }
    lemma_places_kept(pre, sys);
}

/// A change of the system that leaves the ready queues of the processors alone keeps the whole sound, as
/// long as what waits in them stays sound.
pub proof fn lemma_places_kept(pre: KernelView, sys: SystemView)
    requires
        pre.wf(),
        sys.wf(),
        pre.sys.same_places(sys),
        forall|c: int|
            0 <= c < pre.processors.len() && (#[trigger] pre.processors[c]) is Some ==> waiting_sound(
                sys.run_queue,
                pre.processors[c]->0.ready,
            ),
    ensures
        pre.with_sys(sys).wf(),
{
    let post = pre.with_sys(sys);
    assert forall|c: int|
        0 <= c < post.processors.len() && (
        #[trigger] post.processors[c]) is Some implies processor_wf(
        sys,
        c as usize,
        post.processors[c]->0,
    ) by {
        let p = pre.processors[c]->0;
        let slot = Slot::Processor(c as usize);
        assert forall|t: usize| #[trigger] listed(p.ready, t) <==> (sys.valid(t)
            && sys.slots[t as int] == slot) by {
            if sys.valid(t) {
                assert(pre.sys.slots[t as int] == slot <==> sys.slots[t as int] == slot);
            }
        }
    }
    assert forall|t: int|
        0 <= t < sys.slots.len() && (#[trigger] sys.slots[t]) is Processor implies post.has_processor(
        sys.slots[t]->Processor_0,
    ) by {
        assert(pre.sys.slots[t] is Processor);
        assert(pre.has_processor(pre.sys.slots[t]->Processor_0));
    }
}

/// What waits stays sound where whoever is added to the run queue starts from no greater run time.
pub proof fn lemma_waiting_kept(q: Ready, after: Ready, p: Ready)
    requires
        waiting_sound(q, p),
        0 <= start(after) <= start(q),
    ensures
        waiting_sound(after, p),
{
    reveal(waiting_sound);
    assert forall|i: int| 0 <= i < p.list.len() implies sound(after, #[trigger] p.list[i]) by {
        lemma_sound_lower(q, after, p.list[i]);
    }
}

impl<S: BaseScheduler> Kernel<S> {
    /// What always holds of a task manager.
    pub open spec fn wf(&self) -> bool {
        self@.wf()
    }

    /// A task manager for `cpus` CPUs, none of which runs a task yet.
    pub fn new(config: Config, cpus: usize) -> (r: Self)
        requires
            0 < cpus <= MAX_CPUS,
        ensures
            r.wf(),
            r@.sys.config == config,
            r@.sys.tasks.len() == 0,
            r@.sys.current == Seq::new(cpus as nat, |i: int| None::<AxTaskRef>),
            r@.sys.idle == Seq::new(cpus as nat, |i: int| None::<AxTaskRef>),
            r@.sys.run_queue == Ready::none(),
            r@.exited.len() == 0,
            r@.gc_waiters.len() == 0,
            r@.joins == Map::<AxTaskRef, Seq<AxTaskRef>>::empty(),
            r@.processors == Seq::new(cpus as nat, |i: int| None::<ProcessorView>),
            r@.rotor == 0,
    {
        let mut current: Vec<Option<AxTaskRef>> = Vec::new();
        let mut idle_tasks: Vec<Option<AxTaskRef>> = Vec::new();
        let mut processors: Vec<Option<Processor<S>>> = Vec::new();
        let mut i: usize = 0;
        while i < cpus
            invariant
                i <= cpus,
                current@ == Seq::new(i as nat, |i: int| None::<AxTaskRef>),
                idle_tasks@ == Seq::new(i as nat, |i: int| None::<AxTaskRef>),
                processors@ == Seq::new(i as nat, |i: int| None::<Processor<S>>),
            decreases cpus - i,
        {
            current.push(None);
            idle_tasks.push(None);
            processors.push(None);
            i = i + 1;
            assert(current@ =~= Seq::new(i as nat, |i: int| None::<AxTaskRef>));
            assert(idle_tasks@ =~= Seq::new(i as nat, |i: int| None::<AxTaskRef>));
            assert(processors@ =~= Seq::new(i as nat, |i: int| None::<Processor<S>>));
        }
        let r = Kernel {
            system: System {
                config,
                tasks: Vec::new(),
                entities: Vec::new(),
                current,
                idle_tasks,
                run_queue: AxRunQueue { scheduler: S::new() },
            },
            exited_tasks: VecDeque::new(),
            wait_for_exit: WaitQueue::new(),
            wait_for_task_exits: BTreeMap::new(),
            processors,
            processor_index: 0,
        };
        assert(items_sound(r@.sys.run_queue, r@.sys.slots)) by {
            reveal(items_sound);
        }
        assert(r@.joins =~= Map::<AxTaskRef, Seq<AxTaskRef>>::empty());
        assert(r@.processors =~= Seq::new(cpus as nat, |i: int| None::<ProcessorView>));
        r
    }

    /// Whether CPU `cpu` has a processor.
    pub fn has_processor(&self, cpu: usize) -> (r: bool)
        ensures
            r == self@.has_processor(cpu),
    {
        assert(self.processors@.len() == self@.processors.len());
        if cpu >= self.processors.len() {
            return false;
        }
        assert(self@.processors[cpu as int] == processor_view(self.processors@[cpu as int]));
        self.processors[cpu].is_some()
    }

    /// Adds a task. It gets a scheduling item, and others can wait for its exit.
    pub(crate) fn add_new_task(&mut self, task: ScheduleTask) -> (r: AxTaskRef)
        requires
            old(self).wf(),
            countable(old(self)@.sys.tasks.len() + 1),
        ensures
            final(self).wf(),
            r == old(self)@.sys.tasks.len(),
            final(self)@ == old(self)@.with_new_task(task, S::initial(r)),
            final(self)@.sys.valid(r),
    {
        let ghost pre = self@;
        let id = self.system.tasks.len();
        assert(self.system.entities@.len() == pre.sys.slots.len());
        let item = S::new_item(id);
        proof {
            S::initial_id(id);
            lemma_held_sound(pre.sys.run_queue, pre.sys.slots, 0);
        }
        self.system.tasks.push(task);
        self.system.entities.push(Entity::Held(item));
        self.wait_for_task_exits.insert(id, WaitQueue::new());
        assert(self@.sys.slots =~= pre.sys.slots.push(Slot::Held(S::initial(id))));
        assert(self@.joins =~= pre.joins.insert(id, Seq::<AxTaskRef>::empty()));
        proof {
            lemma_new_task(pre, task, S::initial(id));
        }
        id
    }
}

/// A new task fits in.
pub proof fn lemma_new_task(pre: KernelView, t: ScheduleTask, e: Entry)
    requires
        pre.wf(),
        countable(pre.sys.tasks.len() + 1),
        e.id == pre.sys.tasks.len(),
        sound(pre.sys.run_queue, e),
    ensures
        pre.with_new_task(t, e).wf(),
{
    let post = pre.with_new_task(t, e);
    lemma_new_slot_sound(pre.sys.run_queue, pre.sys.slots, e);
    assert forall|c: int|
        0 <= c < post.processors.len() && (
        #[trigger] post.processors[c]) is Some implies processor_wf(
        post.sys,
        c as usize,
        post.processors[c]->0,
    ) by {
        assert(pre.processors[c] is Some);
    }
    assert forall|t: int|
        0 <= t < post.sys.slots.len()
            && (#[trigger] post.sys.slots[t]) is Processor implies post.has_processor(
        post.sys.slots[t]->Processor_0,
    ) by {
        assert(pre.sys.slots[t] is Processor);
        assert(pre.has_processor(pre.sys.slots[t]->Processor_0));
    }
}

} // verus!
