//! Scheduling on processors of their own.
//!
//! Each CPU takes its tasks from a ready queue of its own. A task is `Runable` while it waits and while
//! a CPU runs it. Whether a CPU has finished switching away from a task is told by its on-CPU mark, so
//! that no other CPU takes the task over too early.
use crate::block;
use crate::config::{Config, TimeValue};
use crate::exit;
use crate::exit::{gc_pass, notify_wait_for_exit, Exit};
use crate::kernel::{lemma_nothing_waits, lemma_sys_changed};
use crate::kernel::{processor_view, processor_wf, Kernel, KernelView};
use crate::processor::{
    empty_processor, enqueued_on, has_fit, lemma_proc_changed, next_on, picked_on,
    requeued_on, select_processor_index, selected, PrevCtxSave, Processor, ProcessorView,
};
use crate::run_queue;
use crate::run_queue::{
    holds_item, reprioritised, switch_work, ticked, Alarm, IDLE_TASK_STACK_SIZE,
};
use crate::sched;
use crate::sched::{BaseScheduler, Ready};
use crate::system::{lemma_held_sound, lemma_slot_sound};
use crate::system::{
    lemma_filtered_valid, AxTaskRef, Slot, Switched, SystemView,
};
use crate::task::{
    fits, is_boot_task, is_kernel_task, new_boot_task, new_kernel_task, Allocation, CurrentTask,
    ScheduleTask, TaskState,
};
use crate::wait_queue;
use crate::wait_queue::{other_than, without};
use vstd::multiset::Multiset;
use vstd::prelude::*;

verus! {

/// A processor that is used without being preempted.
///
/// Those functions that speak of the running task are for the processor of the CPU that they run on,
/// which [`current_processor`] gives.
#[derive(Clone, Copy, Debug, PartialEq, Eq, Structural)]
pub struct AxProcessorRef {
    pub index: usize,
}

/// The processor of the CPU `cpu` that this runs on.
pub fn current_processor<S: BaseScheduler>(k: &Kernel<S>, cpu: usize) -> (r: AxProcessorRef)
    requires
        k@.has_processor(cpu),
    ensures
        r.index == cpu,
{
    AxProcessorRef { index: cpu }
}

/// All processors of `mask` have been initialized, and there is one.
pub open spec fn can_select(v: KernelView, mask: crate::cpumask::CpuMask) -> bool {
    &&& has_fit(mask, v.processors.len())
    &&& forall|c: int|
        0 <= c < v.processors.len() && #[trigger] mask.holds(c) ==> v.processors[c] is Some
}

/// Whether a processor can be chosen depends on which of them have been initialized.
proof fn lemma_can_select_kept(pre: KernelView, post: KernelView, mask: crate::cpumask::CpuMask)
    requires
        can_select(pre, mask),
        post.processors.len() == pre.processors.len(),
        forall|c: int|
            0 <= c < pre.processors.len() && pre.processors[c] is Some ==> (
            #[trigger] post.processors[c]) is Some,
    ensures
        can_select(post, mask),
{
    assert forall|c: int|
        0 <= c < post.processors.len() && #[trigger] mask.holds(c) implies post.processors[c] is Some by {
        assert(pre.processors[c] is Some);
    }
}

/// Who can be woken can be woken if only processors have changed, and none is new.
pub proof fn lemma_can_wake_kept(pre: KernelView, post: KernelView, cpu: usize, task: AxTaskRef)
    requires
        post.sys == pre.sys,
        pre.has_processor(cpu),
        post.processors.len() == pre.processors.len(),
        forall|c: int|
            0 <= c < pre.processors.len() && pre.processors[c] is Some ==> (
            #[trigger] post.processors[c]) is Some,
        block::can_wake(pre, cpu, task, false),
    ensures
        block::can_wake(post, cpu, task, false),
{
    let mask = pre.sys.tasks[task as int].cpumask;
    assert(post.processors[cpu as int] is Some);
    if can_select(pre, mask) {
        lemma_can_select_kept(pre, post, mask);
    }
}

/// Chooses a processor for a task among those that it may run on, in turn.
pub fn select_processor<S: BaseScheduler>(k: &mut Kernel<S>, task: AxTaskRef) -> (r: AxProcessorRef)
    requires
        old(k).wf(),
        old(k)@.sys.valid(task),
        can_select(old(k)@, old(k)@.sys.tasks[task as int].cpumask),
    ensures
        final(k).wf(),
        final(k)@.has_processor(r.index),
        selected(old(k)@, old(k)@.sys.tasks[task as int].cpumask, r.index, final(k)@),
{
    let mask = k.system.tasks[task].cpumask();
    let index = select_processor_index(k, mask);
    AxProcessorRef { index }
}

/// The running task of CPU `cpu` goes back into the ready queue if it can run on and is not an idle
/// task. If its preemption is pending it was preempted.
pub open spec fn put_back_on<S: BaseScheduler>(
    pre: KernelView,
    cpu: usize,
    post: KernelView,
) -> bool {
    let prev = pre.sys.curr(cpu);
    if pre.sys.state(prev) == TaskState::Runable && !pre.sys.inner(prev).is_idle {
        requeued_on::<S>(
            pre,
            cpu,
            prev,
            pre.sys.config.preempt && pre.sys.inner(prev).preempt_pending,
            post,
        )
    } else {
        post == pre
    }
}

/// The task `next` is no longer due for preemption.
pub open spec fn claimed_on(pre: KernelView, next: AxTaskRef) -> KernelView {
    if pre.sys.config.preempt {
        pre.with_sys(pre.sys.with_pending(next, false))
    } else {
        pre
    }
}

/// Whether the task `task` is marked as being on a CPU changes.
pub open spec fn with_on_cpu(pre: SystemView, task: AxTaskRef, on_cpu: bool) -> SystemView {
    pre.with_task(task, ScheduleTask { on_cpu, ..pre.tasks[task as int] })
}

/// CPU `cpu` goes over from the task `prev` to the task `next`. The task that it comes from is noted,
/// and the other one is marked as being on a CPU before it runs there.
pub open spec fn switched_on(
    pre: KernelView,
    cpu: usize,
    prev: AxTaskRef,
    next: AxTaskRef,
) -> KernelView {
    let v = claimed_on(pre, next);
    if prev == next {
        v
    } else {
        let sys = if v.sys.config.smp {
            with_on_cpu(v.sys, next, true)
        } else {
            v.sys
        };
        v.with_sys(sys.with_current(cpu, next)).with_proc(
            cpu,
            ProcessorView { prev: Some(prev), ..v.proc(cpu) },
        )
    }
}

/// CPU `cpu` gives up its task: the task goes back into the ready queue if it can run on, and the next
/// one takes its place.
pub open spec fn rescheduled_on<S: BaseScheduler>(
    pre: KernelView,
    cpu: usize,
    post: KernelView,
    work: Switched,
) -> bool {
    exists|mid: KernelView|
        {
            &&& #[trigger] put_back_on::<S>(pre, cpu, mid)
            &&& post == switched_on(
                picked_on(mid, cpu),
                cpu,
                pre.sys.curr(cpu),
                next_on(mid, cpu),
            )
            &&& work == switch_work(
                picked_on(mid, cpu).sys,
                pre.sys.curr(cpu),
                next_on(mid, cpu),
            )
        }
}

/// CPU `cpu` runs a task and has a processor.
pub open spec fn runs_on(v: KernelView, cpu: usize) -> bool {
    v.sys.running(cpu) && v.has_processor(cpu)
}

/// CPU `cpu` may switch away from its task: preemption is not disabled.
pub open spec fn can_switch_on(v: KernelView, cpu: usize) -> bool {
    &&& runs_on(v, cpu)
    &&& v.sys.config.preempt ==> v.sys.inner(v.sys.curr(cpu)).preempt_disable_count == 0
}

/// The switch on CPU `cpu` is finished: the task that it came from is no longer on the CPU, and its
/// state is no longer locked.
pub open spec fn switch_finished(pre: KernelView, cpu: usize) -> KernelView {
    let prev = pre.proc(cpu).prev->0;
    pre.with_sys(
        pre.sys.with_task(
            prev,
            ScheduleTask { on_cpu: false, state_locked: false, ..pre.sys.tasks[prev as int] },
        ),
    ).with_proc(cpu, ProcessorView { prev: None, ..pre.proc(cpu) })
}

/// The exited task `task` is handed to the task of CPU `cpu` that drops exited tasks, which is woken.
pub open spec fn kicked<S: BaseScheduler>(
    pre: KernelView,
    cpu: usize,
    task: AxTaskRef,
    post: KernelView,
) -> bool {
    let p = pre.proc(cpu);
    let mid = with_exited(pre, cpu, task);
    if p.gc_waiters.len() > 0 {
        block::woken::<S>(mid, cpu, p.gc_waiters[0], false, post)
    } else {
        post == mid
    }
}

/// CPU `cpu` has one more exited task that is to be dropped.
pub open spec fn with_exited(pre: KernelView, cpu: usize, task: AxTaskRef) -> KernelView {
    pre.with_proc(
        cpu,
        ProcessorView { exited: pre.proc(cpu).exited.push(task), ..pre.proc(cpu) },
    )
}

/// The kernel after one round of the task of CPU `cpu` that drops exited tasks, before the task blocks.
pub open spec fn gc_waiting_on(pre: KernelView, cpu: usize, holders: Seq<usize>) -> KernelView {
    let p = pre.proc(cpu);
    wait_queue::waiting(pre, cpu).with_proc(
        cpu,
        ProcessorView {
            exited: p.exited.filter(exit::still_held(holders)),
            gc_waiters: p.gc_waiters.push(pre.sys.curr(cpu)),
            ..p
        },
    )
}

/// The stack that is taken from the pool of the processor `p`: the one that came last, or else `spare`.
pub open spec fn free_stack(p: ProcessorView, spare: usize) -> usize {
    if p.stacks.len() > 0 {
        p.stacks.last()
    } else {
        spare
    }
}

/// The processor `p` after a free stack was taken, if there was one.
pub open spec fn without_free_stack(p: ProcessorView) -> ProcessorView {
    if p.stacks.len() > 0 {
        ProcessorView { stacks: p.stacks.drop_last(), ..p }
    } else {
        p
    }
}

/// The processor `p` uses the stack `stack` of the pool; the one that was in use is free again.
pub open spec fn with_stack(p: ProcessorView, stack: Option<usize>) -> ProcessorView {
    ProcessorView {
        stacks: match p.curr_stack {
            Some(top) => p.stacks.push(top),
            None => p.stacks,
        },
        curr_stack: stack,
        ..p
    }
}

/// The stacks that the processor `p` knows of: the free ones and the one in use.
pub open spec fn all_stacks(p: ProcessorView) -> Multiset<usize> {
    match p.curr_stack {
        Some(top) => p.stacks.to_multiset().insert(top),
        None => p.stacks.to_multiset(),
    }
}

/// When a stack is taken from the pool and used, the processor knows the same stacks as before, with
/// `spare` added if the pool was empty; and when the stack is given back, they are all free.
pub proof fn lemma_stacks_kept(p: ProcessorView, spare: usize)
    ensures
        all_stacks(with_stack(without_free_stack(p), Some(free_stack(p, spare))))
            == if p.stacks.len() > 0 {
            all_stacks(p)
        } else {
            all_stacks(p).insert(spare)
        },
        with_stack(p, None).stacks.to_multiset() == all_stacks(p),
        all_stacks(with_stack(p, None)) == all_stacks(p),
{
    broadcast use vstd::seq_lib::group_to_multiset_ensures;

    let s = p.stacks;
    if s.len() > 0 {
        assert(s =~= s.drop_last().push(s.last()));
        assert(s.to_multiset() =~= s.drop_last().to_multiset().insert(s.last()));
        if p.curr_stack is Some {
            let top = p.curr_stack->0;
            assert(s.drop_last().push(top).to_multiset().insert(s.last())
                =~= s.to_multiset().insert(top));
        }
    }
}

/// What came of the attempt to wake a task.
#[derive(Clone, Copy, Debug, PartialEq, Eq, Structural)]
pub enum Wakeup {
    /// The task was not blocked, and nothing was done.
    NotBlocked,
    /// The task can run, but a CPU has not finished switching away from it: it is to be added when it
    /// is no longer on the CPU.
    OnCpu,
    /// The task can run and is in the ready queue.
    Added,
}

/// The running task of CPU `cpu` is `Exited` before those who wait for it are woken; then it is handed
/// over to be dropped.
pub open spec fn exit_told<S: BaseScheduler>(pre: KernelView, cpu: usize, post: KernelView) -> bool {
    let curr = pre.sys.curr(cpu);
    exists|a: KernelView|
        {
            &&& #[trigger] exit::exit_notified::<S>(
                pre.with_sys(pre.sys.with_state(curr, TaskState::Exited)),
                cpu,
                curr,
                a,
            )
            &&& kicked::<S>(a, cpu, curr, post)
        }
}

/// Those who wait for the exit of the running task of CPU `cpu`, and the task that drops exited tasks,
/// can be woken.
pub open spec fn can_tell_exit(v: KernelView, cpu: usize) -> bool {
    &&& exit::can_notify(v, cpu, v.sys.curr(cpu))
    &&& exit::can_wake_first(v, cpu, v.proc(cpu).gc_waiters)
}

/// The running task of CPU `cpu` ends. The kernel ends with its first task; the exit code of any other
/// is stored, and the next task runs.
pub open spec fn exited_on<S: BaseScheduler>(
    pre: KernelView,
    cpu: usize,
    code: i32,
    post: KernelView,
    r: Exit,
) -> bool {
    let curr = pre.sys.curr(cpu);
    exists|b: KernelView|
        {
            &&& #[trigger] exit_told::<S>(pre, cpu, b)
            &&& if pre.sys.inner(curr).is_init {
                post == b && r == Exit::Terminate
            } else {
                r is Switch && rescheduled_on::<S>(
                    b.with_sys(run_queue::with_exit_code(b.sys, curr, code)),
                    cpu,
                    post,
                    r->Switch_0,
                )
            }
        }
}

impl AxProcessorRef {
    /// One round of the task that drops exited tasks: takes out those that nobody else holds, which are
    /// to be dropped, and waits for the next exit. When the task runs again,
    /// [`AxProcessorRef::clean_task_resume`] follows, then the next round.
    pub fn clean_task_wait<S: BaseScheduler>(&self, k: &mut Kernel<S>, holders: &Vec<usize>) -> (r: (
        Vec<AxTaskRef>,
        Switched,
    ))
        requires
            old(k).wf(),
            old(k)@.has_processor(self.index),
            holders@.len() >= old(k)@.sys.tasks.len(),
            wait_queue::can_wait(old(k)@, self.index, false),
        ensures
            final(k).wf(),
            r.0@ == old(k)@.proc(self.index).exited.filter(exit::last_held(holders@)),
            block::blocked::<S>(
                gc_waiting_on(old(k)@, self.index, holders@),
                self.index,
                final(k)@,
                r.1,
            ),
    {
        let ghost pre = k@;
        let cpu = self.index;
        let ghost p0 = pre.proc(cpu);
        assert(k.processors@.len() == pre.processors.len());
        assert(pre.processors[cpu as int] == processor_view(k.processors@[cpu as int]));
        let mut dropped: Vec<AxTaskRef> = Vec::new();
        match k.processors[cpu].as_mut() {
            Some(p) => {
                dropped = gc_pass(&mut p.exited_tasks, holders);
                p.gc_wait.enter(&mut k.system, cpu);
            },
            None => {},
        }
        proof {
            let mid = gc_waiting_on(pre, cpu, holders@);
            lemma_filtered_valid(pre.sys, p0.exited, exit::still_held(holders@));
            lemma_sys_changed(pre, k@.sys);
            lemma_proc_changed(wait_queue::waiting(pre, cpu), cpu, mid.proc(cpu));
            assert(k@.processors =~= mid.processors);
        }
        (dropped, block::block_current(k, cpu))
    }

    /// Ends the wait of the task `task` that drops exited tasks, which runs again.
    pub fn clean_task_resume<S: BaseScheduler>(&self, k: &mut Kernel<S>, task: AxTaskRef)
        requires
            old(k).wf(),
            old(k)@.has_processor(self.index),
        ensures
            final(k).wf(),
            final(k)@ == old(k)@.with_proc(
                self.index,
                ProcessorView {
                    gc_waiters: without(old(k)@.proc(self.index).gc_waiters, task),
                    ..old(k)@.proc(self.index)
                },
            ),
    {
        let ghost pre = k@;
        let cpu = self.index;
        let ghost p0 = pre.proc(cpu);
        assert(k.processors@.len() == pre.processors.len());
        assert(pre.processors[cpu as int] == processor_view(k.processors@[cpu as int]));
        match k.processors[cpu].as_mut() {
            Some(p) => {
                p.gc_wait.leave(task);
            },
            None => {},
        }
        proof {
            let p = ProcessorView { gc_waiters: without(p0.gc_waiters, task), ..p0 };
            lemma_filtered_valid(pre.sys, p0.gc_waiters, other_than(task));
            lemma_proc_changed(pre, cpu, p);
            assert(k@.processors =~= pre.with_proc(cpu, p).processors);
        }
    }

    /// Hands an exited task to the task that drops exited tasks.
    pub fn kick_exited_task<S: BaseScheduler>(&self, k: &mut Kernel<S>, task: AxTaskRef)
        requires
            old(k).wf(),
            old(k)@.has_processor(self.index),
            old(k)@.sys.valid(task),
            exit::can_wake_first(old(k)@, self.index, old(k)@.proc(self.index).gc_waiters),
        ensures
            final(k).wf(),
            block::waking_keeps(with_exited(old(k)@, self.index, task), final(k)@),
            kicked::<S>(old(k)@, self.index, task, final(k)@),
    {
        let ghost pre = k@;
        let cpu = self.index;
        let ghost p0 = pre.proc(cpu);
        assert(k.processors@.len() == pre.processors.len());
        assert(pre.processors[cpu as int] == processor_view(k.processors@[cpu as int]));
        let first = match k.processors[cpu].as_mut() {
            Some(p) => {
                p.exited_tasks.push_back(task);
                p.gc_wait.front()
            },
            None => None,
        };
        let ghost mid = with_exited(pre, cpu, task);
        proof {
            lemma_proc_changed(pre, cpu, mid.proc(cpu));
            assert(k@.processors =~= mid.processors);
            block::lemma_waking_none(mid);
        }
        if let Some(waiter) = first {
            proof {
                assert(pre.sys.valid(p0.gc_waiters[0]));
                lemma_can_wake_kept(pre, mid, cpu, waiter);
            }
            block::wake_task(k, cpu, waiter, false);
        }
    }

    /// Adds the task that drops exited tasks to the ready queue.
    pub fn gc_init<S: BaseScheduler>(&self, k: &mut Kernel<S>)
        requires
            old(k).wf(),
            old(k)@.has_processor(self.index),
        ensures
            final(k).wf(),
            final(k)@.has_processor(self.index),
            enqueued_on::<S>(old(k)@, self.index, old(k)@.proc(self.index).gc, final(k)@),
    {
        let ghost pre = k@;
        assert(k.processors@.len() == pre.processors.len());
        assert(pre.processors[self.index as int] == processor_view(
            k.processors@[self.index as int],
        ));
        let gc_task = match k.processors[self.index].as_ref() {
            Some(p) => p.gc_task,
            None => 0,
        };
        self.add_task(k, gc_task);
    }

    /// Adds a task to the ready queue.
    pub fn add_task<S: BaseScheduler>(&self, k: &mut Kernel<S>, task: AxTaskRef)
        requires
            old(k).wf(),
            old(k)@.has_processor(self.index),
            old(k)@.sys.valid(task),
        ensures
            final(k).wf(),
            final(k)@.has_processor(self.index),
            enqueued_on::<S>(old(k)@, self.index, task, final(k)@),
    {
        k.enqueue_on(self.index, task);
    }

    /// Finishes a switch, on the new task.
    pub fn switch_post<S: BaseScheduler>(&self, k: &mut Kernel<S>)
        requires
            old(k).wf(),
            old(k)@.has_processor(self.index),
            old(k)@.proc(self.index).prev is Some,
        ensures
            final(k).wf(),
            final(k)@ == switch_finished(old(k)@, self.index),
    {
        let ghost pre = k@;
        let cpu = self.index;
        let ghost p0 = pre.proc(cpu);
        assert(k.processors@.len() == pre.processors.len());
        assert(pre.processors[cpu as int] == processor_view(k.processors@[cpu as int]));
        let prev = match k.processors[cpu].as_mut() {
            Some(p) => p.prev_ctx_save.take_prev_task(),
            None => None,
        };
        let ghost p = ProcessorView { prev: None, ..p0 };
        match prev {
            Some(prev_task) => {
                k.system.tasks[prev_task].set_on_cpu(false);
                k.system.tasks[prev_task].state_locked = false;
                assert(k@.sys.tasks =~= switch_finished(pre, cpu).sys.tasks);
            },
            None => {},
        }
        proof {
            lemma_proc_changed(pre, cpu, p);
            lemma_sys_changed(pre.with_proc(cpu, p), k@.sys);
            assert(k@.processors =~= pre.with_proc(cpu, p).processors);
        }
    }

    /// Accounts a timer tick to the running task.
    pub fn scheduler_timer_tick<S: BaseScheduler>(&self, k: &mut Kernel<S>)
        requires
            old(k).wf(),
            runs_on(old(k)@, self.index),
            run_queue::can_tick::<S>(old(k)@.sys, self.index),
        ensures
            final(k).wf(),
            final(k)@ == old(k)@.with_sys(final(k)@.sys),
            ticked::<S>(
                old(k)@.sys,
                self.index,
                old(k)@.proc(self.index).ready,
                final(k)@.sys,
            ),
    {
        let ghost pre = k@;
        let cpu = self.index;
        let curr = k.system.curr(cpu);
        if k.system.tasks[curr].inner.is_idle {
            return ;
        }
        proof {
            lemma_held_sound(pre.sys.run_queue, pre.sys.slots, curr);
            S::ticked_sound(pre.sys.run_queue, pre.sys.slots[curr as int]->Held_0);
        }
        let item = k.system.take_item(curr);
        assert(k.processors@.len() == pre.processors.len());
        assert(pre.processors[cpu as int] == processor_view(k.processors@[cpu as int]));
        let ghost e0 = S::entry(item);
        match k.processors[cpu].as_mut() {
            Some(p) => {
                let (item, due) = p.scheduler.task_tick(item);
                k.system.put_item(curr, item);
                let ghost e = S::entry(item);
                proof {
                    S::ticks_keeps(e0, pre.proc(cpu).ready, e, due);
                    lemma_slot_sound(pre.sys.run_queue, pre.sys.slots, curr, Slot::Held(e));
                    assert(k.system@.slots =~= pre.sys.slots.update(
                        curr as int,
                        Slot::Held(e),
                    ));
                    assert(k.system@ == pre.sys.with_slot(curr, Slot::Held(e)));
                }
                if due && k.system.config.preempt {
                    k.system.set_preempt_pending(curr, true);
                }
                assert(S::ticks(e0, pre.proc(cpu).ready, e, due));
                assert(ticked::<S>(pre.sys, cpu, pre.proc(cpu).ready, k.system@));
            },
            None => {
                k.system.put_item(curr, item);
            },
        }
        proof {
            assert(k@.processors =~= pre.processors);
            lemma_sys_changed(pre, k@.sys);
        }
    }

    /// Sets the priority of the running task; `true` if the policy takes it.
    pub fn set_current_priority<S: BaseScheduler>(&self, k: &mut Kernel<S>, prio: isize) -> (r: bool)
        requires
            old(k).wf(),
            runs_on(old(k)@, self.index),
            holds_item(old(k)@.sys, self.index),
        ensures
            final(k).wf(),
            r == S::accepts(prio),
            final(k)@ == old(k)@.with_sys(
                reprioritised::<S>(old(k)@.sys, self.index, prio),
            ),
    {
        let ghost pre = k@;
        let cpu = self.index;
        let curr = k.system.curr(cpu);
        let item = k.system.take_item(curr);
        assert(k.processors@.len() == pre.processors.len());
        assert(pre.processors[cpu as int] == processor_view(k.processors@[cpu as int]));
        let ghost e0 = S::entry(item);
        proof {
            lemma_held_sound(pre.sys.run_queue, pre.sys.slots, curr);
        }
        let mut r = false;
        match k.processors[cpu].as_mut() {
            Some(p) => {
                let (item, ok) = p.scheduler.set_priority(item, prio);
                proof {
                    S::reweighed_id(e0, prio);
                    lemma_slot_sound(
                        pre.sys.run_queue,
                        pre.sys.slots,
                        curr,
                        Slot::Held(S::entry(item)),
                    );
                }
                k.system.put_item(curr, item);
                r = ok;
            },
            None => {
                k.system.put_item(curr, item);
            },
        }
        proof {
            assert(k@.processors =~= pre.processors);
            assert(k@.sys.slots =~= reprioritised::<S>(pre.sys, cpu, prio).slots);
            lemma_sys_changed(pre, k@.sys);
        }
        r
    }

    /// Wakes a blocked task: it can run again, and as soon as it is off its CPU it goes into the ready
    /// queue.
    pub fn wakeup_task<S: BaseScheduler>(&self, k: &mut Kernel<S>, task: AxTaskRef) -> (r: Wakeup)
        requires
            old(k).wf(),
            old(k)@.has_processor(self.index),
            old(k)@.sys.valid(task),
        ensures
            final(k).wf(),
            r == (if old(k)@.sys.state(task) != TaskState::Blocked {
                Wakeup::NotBlocked
            } else if old(k)@.sys.tasks[task as int].on_cpu {
                Wakeup::OnCpu
            } else {
                Wakeup::Added
            }),
            ({
                let ready = old(k)@.with_sys(old(k)@.sys.with_state(task, TaskState::Runable));
                match r {
                    Wakeup::NotBlocked => final(k)@ == old(k)@,
                    Wakeup::OnCpu => final(k)@ == ready,
                    Wakeup::Added => enqueued_on::<S>(ready, self.index, task, final(k)@),
                }
            }),
    {
        let ghost pre = k@;
        let done = k.system.tasks[task].transition_state(TaskState::Blocked, TaskState::Runable);
        if !done {
            assert(k@.sys.tasks =~= pre.sys.tasks);
            return Wakeup::NotBlocked;
        }
        proof {
            lemma_sys_changed(pre, k@.sys);
        }
        if k.system.tasks[task].on_cpu() {
            return Wakeup::OnCpu;
        }
        self.add_task(k, task);
        Wakeup::Added
    }

    /// Lets the running task sleep until it is woken. The alarm that is handed out is to be set before
    /// the switch is carried out; when the task runs again,
    /// [`schedule_timeout_resume`](crate::run_queue::schedule_timeout_resume) follows.
    pub fn schedule_timeout<S: BaseScheduler>(&self, k: &mut Kernel<S>, deadline: TimeValue) -> (r: (
        Alarm,
        Switched,
    ))
        requires
            old(k).wf(),
            can_switch_on(old(k)@, self.index),
            !old(k)@.sys.inner(old(k)@.sys.curr(self.index)).is_idle,
        ensures
            final(k).wf(),
            r.0 == (Alarm { deadline, task: old(k)@.sys.curr(self.index) }),
            rescheduled_on::<S>(old(k)@, self.index, final(k)@, r.1),
    {
        let curr = k.system.curr(self.index);
        let work = self.reschedule(k);
        (Alarm { deadline, task: curr }, work)
    }

    /// The running task gives up the CPU and stays ready to run.
    pub fn yield_current<S: BaseScheduler>(&self, k: &mut Kernel<S>) -> (work: Switched)
        requires
            old(k).wf(),
            can_switch_on(old(k)@, self.index),
            old(k)@.sys.state(old(k)@.sys.curr(self.index)) == TaskState::Runable,
        ensures
            final(k).wf(),
            rescheduled_on::<S>(old(k)@, self.index, final(k)@, work),
    {
        self.reschedule(k)
    }

    /// Ends the running task.
    pub fn exit_current<S: BaseScheduler>(&self, k: &mut Kernel<S>, exit_code: i32) -> (r: Exit)
        requires
            old(k).wf(),
            can_switch_on(old(k)@, self.index),
            can_tell_exit(old(k)@, self.index),
        ensures
            final(k).wf(),
            exited_on::<S>(old(k)@, self.index, exit_code, final(k)@, r),
    {
        let ghost pre = k@;
        let cpu = self.index;
        let curr = k.system.curr(cpu);
        self.tell_exit(k);
        let ghost b = k@;
        if k.system.tasks[curr].inner.is_init {
            Processor::<S>::clean_all();
            return Exit::Terminate;
        }
        k.system.set_exit_code(curr, exit_code);
        proof {
            lemma_sys_changed(b, k@.sys);
        }
        Exit::Switch(self.reschedule(k))
    }

    /// Marks the running task as exited, wakes those who wait for it and hands it over to be dropped.
    pub(crate) fn tell_exit<S: BaseScheduler>(&self, k: &mut Kernel<S>)
        requires
            old(k).wf(),
            runs_on(old(k)@, self.index),
            can_tell_exit(old(k)@, self.index),
        ensures
            final(k).wf(),
            runs_on(final(k)@, self.index),
            exit_told::<S>(old(k)@, self.index, final(k)@),
            run_queue::waking_keeps(
                old(k)@.sys.with_state(old(k)@.sys.curr(self.index), TaskState::Exited),
                final(k)@.sys,
            ),
    {
        let ghost pre = k@;
        let cpu = self.index;
        let curr = k.system.curr(cpu);
        k.system.set_state(curr, TaskState::Exited);
        let ghost ended = k@;
        let ghost waiters = pre.proc(cpu).gc_waiters;
        let ghost gone = KernelView { joins: ended.joins.remove(curr), ..ended };
        proof {
            assert(pre.processors[cpu as int] is Some);
            lemma_sys_changed(pre, ended.sys);
            exit::lemma_can_notify_ended(pre, cpu, curr, waiters);
            assert(gone.has_processor(cpu) == ended.has_processor(cpu));
        }
        // Others may look at the state as soon as they are woken.
        notify_wait_for_exit(k, cpu, curr);
        let ghost a = k@;
        proof {
            exit::lemma_first_kept(gone, a, cpu, waiters);
            assert(block::kept_processor(gone.processors[cpu as int], a.processors[cpu as int]));
        }
        self.kick_exited_task(k, curr);
        proof {
            let kicked = with_exited(a, cpu, curr);
            run_queue::lemma_waking_keeps(ended.sys, a.sys, k@.sys);
            assert(block::kept_processor(
                kicked.processors[cpu as int],
                k@.processors[cpu as int],
            ));
            assert(exit_told::<S>(pre, cpu, k@));
        }
    }

    /// Takes a free stack from the pool and gives its top. If there is none, `spare` is taken, the top of
    /// a new stack.
    pub fn pick_stack<S: BaseScheduler>(&self, k: &mut Kernel<S>, spare: usize) -> (top: usize)
        requires
            old(k).wf(),
            old(k)@.has_processor(self.index),
        ensures
            final(k).wf(),
            final(k)@.has_processor(self.index),
            top == free_stack(old(k)@.proc(self.index), spare),
            final(k)@ == old(k)@.with_proc(
                self.index,
                without_free_stack(old(k)@.proc(self.index)),
            ),
    {
        let ghost pre = k@;
        let cpu = self.index;
        assert(k.processors@.len() == pre.processors.len());
        assert(pre.processors[cpu as int] == processor_view(k.processors@[cpu as int]));
        let free = match k.processors[cpu].as_mut() {
            Some(p) => p.stack_pool.pop(),
            None => None,
        };
        proof {
            let p = without_free_stack(pre.proc(cpu));
            lemma_proc_changed(pre, cpu, p);
            assert(k@.processors =~= pre.with_proc(cpu, p).processors);
        }
        match free {
            Some(top) => top,
            None => spare,
        }
    }

    /// Says that no stack of the pool is in use, and gives the one that was: it is not free again.
    pub(crate) fn take_curr_stack<S: BaseScheduler>(&self, k: &mut Kernel<S>) -> (stack: Option<usize>)
        requires
            old(k).wf(),
            old(k)@.has_processor(self.index),
        ensures
            final(k).wf(),
            final(k)@.has_processor(self.index),
            stack == old(k)@.proc(self.index).curr_stack,
            final(k)@ == old(k)@.with_proc(
                self.index,
                ProcessorView { curr_stack: None, ..old(k)@.proc(self.index) },
            ),
    {
        let ghost pre = k@;
        let cpu = self.index;
        assert(k.processors@.len() == pre.processors.len());
        assert(pre.processors[cpu as int] == processor_view(k.processors@[cpu as int]));
        let stack = match k.processors[cpu].as_mut() {
            Some(p) => p.curr_stack.take(),
            None => None,
        };
        proof {
            let p = ProcessorView { curr_stack: None, ..pre.proc(cpu) };
            lemma_proc_changed(pre, cpu, p);
            assert(k@.processors =~= pre.with_proc(cpu, p).processors);
        }
        stack
    }

    /// Adds the stack whose top is `top` to the free ones.
    pub fn add_stack<S: BaseScheduler>(&self, k: &mut Kernel<S>, top: usize)
        requires
            old(k).wf(),
            old(k)@.has_processor(self.index),
        ensures
            final(k).wf(),
            final(k)@.has_processor(self.index),
            final(k)@ == old(k)@.with_proc(
                self.index,
                ProcessorView {
                    stacks: old(k)@.proc(self.index).stacks.push(top),
                    ..old(k)@.proc(self.index)
                },
            ),
    {
        let ghost pre = k@;
        let cpu = self.index;
        assert(k.processors@.len() == pre.processors.len());
        assert(pre.processors[cpu as int] == processor_view(k.processors@[cpu as int]));
        match k.processors[cpu].as_mut() {
            Some(p) => {
                p.stack_pool.push(top);
            },
            None => {},
        }
        proof {
            let p0 = pre.proc(cpu);
            let p = ProcessorView { stacks: p0.stacks.push(top), ..p0 };
            lemma_proc_changed(pre, cpu, p);
            assert(k@.processors =~= pre.with_proc(cpu, p).processors);
        }
    }

    /// Says which stack of the pool is in use; the one that was in use before is free again.
    pub fn set_curr_stack<S: BaseScheduler>(&self, k: &mut Kernel<S>, stack: Option<usize>)
        requires
            old(k).wf(),
            old(k)@.has_processor(self.index),
        ensures
            final(k).wf(),
            final(k)@.has_processor(self.index),
            final(k)@ == old(k)@.with_proc(
                self.index,
                with_stack(old(k)@.proc(self.index), stack),
            ),
    {
        let ghost pre = k@;
        let cpu = self.index;
        assert(k.processors@.len() == pre.processors.len());
        assert(pre.processors[cpu as int] == processor_view(k.processors@[cpu as int]));
        match k.processors[cpu].as_mut() {
            Some(p) => {
                if let Some(old_stack) = p.curr_stack {
                    p.stack_pool.push(old_stack);
                }
                p.curr_stack = stack;
            },
            None => {},
        }
        proof {
            let p = with_stack(pre.proc(cpu), stack);
            lemma_proc_changed(pre, cpu, p);
            assert(k@.processors =~= pre.with_proc(cpu, p).processors);
        }
    }

    /// The running task gives up the CPU: it goes back into the ready queue if it can run on, and the
    /// next one takes its place.
    pub fn reschedule<S: BaseScheduler>(&self, k: &mut Kernel<S>) -> (work: Switched)
        requires
            old(k).wf(),
            can_switch_on(old(k)@, self.index),
        ensures
            final(k).wf(),
            rescheduled_on::<S>(old(k)@, self.index, final(k)@, work),
    {
        let cpu = self.index;
        let curr = k.system.curr(cpu);
        if k.system.tasks[curr].is_runable() && !k.system.tasks[curr].inner.is_idle {
            let preempt = k.system.config.preempt && k.system.tasks[curr].inner.preempt_pending;
            k.requeue_on(cpu, curr, preempt);
        }
        let ghost mid = k@;
        assert(put_back_on::<S>(old(k)@, cpu, mid));
        let next = k.pick_on(cpu);
        self.switch_to(k, curr, next)
    }

    /// Goes over from the task `prev_task` to the task `next_task`.
    fn switch_to<S: BaseScheduler>(
        &self,
        k: &mut Kernel<S>,
        prev_task: AxTaskRef,
        next_task: AxTaskRef,
    ) -> (work: Switched)
        requires
            old(k).wf(),
            runs_on(old(k)@, self.index),
            prev_task == old(k)@.sys.curr(self.index),
            old(k)@.sys.valid(next_task),
        ensures
            final(k).wf(),
            final(k)@ == switched_on(old(k)@, self.index, prev_task, next_task),
            work == switch_work(old(k)@.sys, prev_task, next_task),
    {
        let ghost pre = k@;
        let cpu = self.index;
        if k.system.config.preempt {
            k.system.set_preempt_pending(next_task, false);
        }
        proof {
            lemma_sys_changed(pre, k@.sys);
        }
        if prev_task == next_task {
            return Switched::Stay;
        }
        let ghost claimed = k@;
        let ghost p0 = claimed.proc(cpu);
        if k.system.config.smp {
            k.system.tasks[next_task].set_on_cpu(true);
        }
        let work = k.system.switch_of(prev_task, next_task);
        assert(k.processors@.len() == pre.processors.len());
        assert(pre.processors[cpu as int] == processor_view(k.processors@[cpu as int]));
        match k.processors[cpu].as_mut() {
            Some(p) => {
                p.set_prev_ctx_save(PrevCtxSave::new(prev_task));
            },
            None => {},
        }
        CurrentTask::set_current(CurrentTask(prev_task), &mut k.system, cpu, next_task);
        proof {
            let p = ProcessorView { prev: Some(prev_task), ..p0 };
            lemma_proc_changed(claimed, cpu, p);
            lemma_sys_changed(claimed.with_proc(cpu, p), k@.sys);
            assert(k@.processors =~= claimed.with_proc(cpu, p).processors);
        }
        Switched::To(work)
    }
}

/// One round of the task that drops exited tasks, which runs on CPU `cpu`. When the task runs again,
/// [`AxProcessorRef::clean_task_resume`] follows, then the next round.
pub fn gc_entry<S: BaseScheduler>(k: &mut Kernel<S>, cpu: usize, holders: &Vec<usize>) -> (r: (
    Vec<AxTaskRef>,
    Switched,
))
    requires
        old(k).wf(),
        old(k)@.has_processor(cpu),
        holders@.len() >= old(k)@.sys.tasks.len(),
        wait_queue::can_wait(old(k)@, cpu, false),
    ensures
        final(k).wf(),
        r.0@ == old(k)@.proc(cpu).exited.filter(exit::last_held(holders@)),
        block::blocked::<S>(gc_waiting_on(old(k)@, cpu, holders@), cpu, final(k)@, r.1),
{
    current_processor(k, cpu).clean_task_wait(k, holders)
}

/// The stacks that are free when a processor starts: where tasks are coroutines, the one whose top is
/// `free_stack` is kept ready to be switched to.
pub open spec fn first_stacks(config: Config, free_stack: usize) -> Seq<usize> {
    if config.coroutine {
        seq![free_stack]
    } else {
        Seq::empty()
    }
}

/// CPU `cpu` gets a processor, whose task that drops exited tasks is ready to run, and runs the task
/// `task`. Where tasks are coroutines, the stack whose top is `free_stack` is free.
pub open spec fn started<S: BaseScheduler>(
    pre: KernelView,
    cpu: usize,
    idle: AxTaskRef,
    gc: AxTaskRef,
    task: AxTaskRef,
    free_stack: usize,
    post: KernelView,
) -> bool {
    let ready = post.proc(cpu).ready;
    let stacks = first_stacks(pre.sys.config, free_stack);
    &&& S::adds(S::initial(gc), Ready::none(), ready)
    &&& post == pre.with_proc(
        cpu,
        ProcessorView { ready, stacks, ..empty_processor(idle, gc) },
    ).with_sys(pre.sys.with_slot(gc, Slot::Processor(cpu)).with_current(cpu, task))
}

/// Gives CPU `cpu` a processor and lets it run the task `task`; then, where tasks are coroutines, keeps
/// the stack whose top is `free_stack` ready to be switched to. Hands out the thread pointer that is to
/// be written, if any.
fn start<S: BaseScheduler>(
    k: &mut Kernel<S>,
    cpu: usize,
    processor: Processor<S>,
    task: AxTaskRef,
    free_stack: usize,
) -> (tls: Option<usize>)
    requires
        old(k).wf(),
        cpu < old(k)@.processors.len(),
        old(k)@.processors[cpu as int] is None,
        processor@ == empty_processor(processor.idle_task, processor.gc_task),
        old(k)@.sys.valid(processor.idle_task),
        old(k)@.sys.valid(processor.gc_task),
        old(k)@.sys.slots[processor.gc_task as int] == Slot::Held(S::initial(processor.gc_task)),
        old(k)@.sys.valid(task),
    ensures
        final(k).wf(),
        started::<S>(
            old(k)@,
            cpu,
            processor.idle_task,
            processor.gc_task,
            task,
            free_stack,
            final(k)@,
        ),
        tls == run_queue::thread_pointer(
            old(k)@.sys.config,
            old(k)@.sys.inner(task).tls_ptr,
        ),
{
    let ghost pre = k@;
    let ghost p = processor@;
    k.processors[cpu] = Some(processor);
    proof {
        let post = pre.with_proc(cpu, p);
        assert(k@.processors =~= post.processors);
        assert forall|c: int|
            0 <= c < post.processors.len() && (
            #[trigger] post.processors[c]) is Some implies processor_wf(
            post.sys,
            c as usize,
            post.processors[c]->0,
        ) by {
            if c != cpu {
                assert(pre.processors[c] is Some);
            } else {
                lemma_nothing_waits(pre.sys.run_queue);
                assert forall|t: usize| pre.sys.valid(t) implies pre.sys.slots[t as int]
                    != Slot::Processor(cpu) by {
                    if pre.sys.slots[t as int] is Processor {
                        assert(pre.has_processor(pre.sys.slots[t as int]->Processor_0));
                    }
                }
            }
        }
        assert forall|t: int|
            0 <= t < post.sys.slots.len()
                && (#[trigger] post.sys.slots[t]) is Processor implies post.has_processor(
            post.sys.slots[t]->Processor_0,
        ) by {
            assert(pre.has_processor(pre.sys.slots[t]->Processor_0));
        }
    }
    let ghost mid = k@;
    let r = AxProcessorRef { index: cpu };
    r.gc_init(k);
    let ghost ready = k@;
    let tls = CurrentTask::init_current(&mut k.system, cpu, task);
    proof {
        lemma_sys_changed(ready, k@.sys);
        assert(mid.proc(cpu).ready == Ready::none());
        assert(k@.processors =~= pre.with_proc(
            cpu,
            ProcessorView { ready: ready.proc(cpu).ready, ..p },
        ).processors);
        assert(k@.processors[cpu as int] is Some);
    }
    if k.system.config.coroutine {
        r.add_stack(k, free_stack);
        assert(p.stacks.push(free_stack) =~= seq![free_stack]);
    }
    assert(k@.processors =~= pre.with_proc(
        cpu,
        ProcessorView {
            ready: ready.proc(cpu).ready,
            stacks: first_stacks(pre.sys.config, free_stack),
            ..p
        },
    ).processors);
    tls
}

/// The kernel `post` is the kernel `pre` with a processor for CPU `cpu` and its three tasks.
pub open spec fn initialized_on<S: BaseScheduler>(
    pre: KernelView,
    cpu: usize,
    idle_alloc: Allocation,
    gc_alloc: Allocation,
    main_tls: usize,
    free_stack: usize,
    post: KernelView,
) -> bool {
    let idle = pre.sys.tasks.len() as usize;
    let main = (idle + 1) as usize;
    let gc = (idle + 2) as usize;
    let (config, cpus) = (pre.sys.config, pre.processors.len() as usize);
    let idle_task = post.sys.tasks[idle as int];
    let main_task = post.sys.tasks[main as int];
    let gc_task = post.sys.tasks[gc as int];
    let all = pre.with_new_task(idle_task, S::initial(idle)).with_new_task(
        main_task,
        S::initial(main),
    ).with_new_task(gc_task, S::initial(gc));
    &&& is_kernel_task(idle_task, config, cpus, "idle"@, IDLE_TASK_STACK_SIZE, idle_alloc)
    &&& is_boot_task(main_task, config, cpus, "main"@, main_tls)
    &&& is_kernel_task(gc_task, config, cpus, "gc"@, config.task_stack_size, gc_alloc)
    &&& started::<S>(all, cpu, idle, gc, main, free_stack, post)
}

/// Initializes the processor of the first CPU: makes its idle task, the task that drops exited tasks,
/// and the task that runs already. Where tasks are coroutines, the stack whose top is `free_stack` is kept
/// ready to be switched to. Hands out the thread pointer that is to be written, if any.
pub fn init<S: BaseScheduler>(
    k: &mut Kernel<S>,
    cpu: usize,
    idle_alloc: Allocation,
    gc_alloc: Allocation,
    main_tls: usize,
    free_stack: usize,
) -> (tls: Option<usize>)
    requires
        old(k).wf(),
        cpu < old(k)@.processors.len(),
        old(k)@.processors[cpu as int] is None,
        sched::countable(old(k)@.sys.tasks.len() + 3),
        fits(old(k)@.sys.config, idle_alloc),
        fits(old(k)@.sys.config, gc_alloc),
    ensures
        final(k).wf(),
        initialized_on::<S>(
            old(k)@,
            cpu,
            idle_alloc,
            gc_alloc,
            main_tls,
            free_stack,
            final(k)@,
        ),
        tls == run_queue::thread_pointer(old(k)@.sys.config, main_tls),
{
    let ghost pre = k@;
    let idle = new_kernel_task(k, "idle", IDLE_TASK_STACK_SIZE, idle_alloc);
    let main = new_boot_task(k, "main", main_tls);
    let processor = Processor::new(k, idle, gc_alloc);
    let ghost all = k@;
    let tls = start(k, cpu, processor, main, free_stack);
    assert(all.sys.tasks =~= pre.sys.tasks.push(all.sys.tasks[idle as int]).push(
        all.sys.tasks[main as int],
    ).push(all.sys.tasks[processor.gc_task as int]));
    tls
}

/// The kernel `post` is the kernel `pre` with a processor for CPU `cpu` that runs its idle task.
pub open spec fn initialized_secondary_on<S: BaseScheduler>(
    pre: KernelView,
    cpu: usize,
    gc_alloc: Allocation,
    tls_ptr: usize,
    free_stack: usize,
    post: KernelView,
) -> bool {
    let idle = pre.sys.tasks.len() as usize;
    let gc = (idle + 1) as usize;
    let (config, cpus) = (pre.sys.config, pre.processors.len() as usize);
    let idle_task = post.sys.tasks[idle as int];
    let gc_task = post.sys.tasks[gc as int];
    let all = pre.with_new_task(idle_task, S::initial(idle)).with_new_task(
        gc_task,
        S::initial(gc),
    );
    &&& is_boot_task(idle_task, config, cpus, "idle"@, tls_ptr)
    &&& is_kernel_task(gc_task, config, cpus, "gc"@, config.task_stack_size, gc_alloc)
    &&& started::<S>(all, cpu, idle, gc, idle, free_stack, post)
}

/// Initializes the processor of another CPU: it runs its idle task. Where tasks are coroutines, the stack
/// whose top is `free_stack` is kept ready to be switched to. Hands out the thread pointer that is to be
/// written, if any.
pub fn init_secondary<S: BaseScheduler>(
    k: &mut Kernel<S>,
    cpu: usize,
    gc_alloc: Allocation,
    tls_ptr: usize,
    free_stack: usize,
) -> (tls: Option<usize>)
    requires
        old(k).wf(),
        cpu < old(k)@.processors.len(),
        old(k)@.processors[cpu as int] is None,
        sched::countable(old(k)@.sys.tasks.len() + 2),
        fits(old(k)@.sys.config, gc_alloc),
    ensures
        final(k).wf(),
        initialized_secondary_on::<S>(old(k)@, cpu, gc_alloc, tls_ptr, free_stack, final(k)@),
        tls == run_queue::thread_pointer(old(k)@.sys.config, tls_ptr),
{
    let ghost pre = k@;
    let idle = new_boot_task(k, "idle", tls_ptr);
    let processor = Processor::new(k, idle, gc_alloc);
    let ghost all = k@;
    let tls = start(k, cpu, processor, idle, free_stack);
    assert(all.sys.tasks =~= pre.sys.tasks.push(all.sys.tasks[idle as int]).push(
        all.sys.tasks[processor.gc_task as int],
    ));
    tls
}

} // verus!
