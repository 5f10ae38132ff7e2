//! Scheduling with a locked state.
//!
//! A task that wants to block says so first: it is `Blocking` until a CPU has switched away from it and
//! `Blocked` from then on. The CPU locks the state of the task before it looks at it and unlocks it on
//! the next task, when the switch is finished; until then nobody can wake the task.
use crate::config::TimeValue;
use crate::block;
use crate::exit::Exit;
use crate::kernel;
use crate::kernel::{Kernel, KernelView};
use crate::processor;
use crate::processor::{PrevCtxSave, Processor, ProcessorView};
use crate::processor_ref;
use crate::processor_ref::{current_processor, select_processor};
use crate::run_queue;
use crate::run_queue::Alarm;
use crate::sched::BaseScheduler;
use crate::system::{AxTaskRef, Switched, SystemView};
use crate::task::{CurrentTask, ScheduleTask, TaskState};
use crate::task_switch;
use vstd::prelude::*;

verus! {

/// What becomes of the running task of CPU `cpu`, and which task runs next, when `first` is due. A task
/// that can run on goes on if only an idle task is due; otherwise it goes back into the ready queue,
/// unless it is an idle task. A task that wants to block is blocked.
pub open spec fn settled<S: BaseScheduler>(
    pre: KernelView,
    cpu: usize,
    first: AxTaskRef,
    post: KernelView,
    next: AxTaskRef,
) -> bool {
    let prev = pre.sys.curr(cpu);
    match pre.sys.state(prev) {
        TaskState::Runable => {
            if pre.sys.inner(first).is_idle {
                post == pre && next == prev
            } else {
                processor_ref::put_back_on::<S>(pre, cpu, post) && next == first
            }
        },
        TaskState::Blocking => {
            &&& post == pre.with_sys(pre.sys.with_state(prev, TaskState::Blocked))
            &&& next == first
        },
        TaskState::Exited => post == pre && next == first,
        _ => false,
    }
}

/// Whether the context is changed when the task `next` follows the task `prev`. A coroutine is left and
/// entered again even if it follows itself.
pub open spec fn leaves(v: SystemView, prev: AxTaskRef, next: AxTaskRef) -> bool {
    prev != next || (v.config.coroutine && !v.inner(next).is_idle)
}

/// Whether the state of the task `task` is locked changes.
pub open spec fn with_lock(pre: SystemView, task: AxTaskRef, state_locked: bool) -> SystemView {
    pre.with_task(task, ScheduleTask { state_locked, ..pre.tasks[task as int] })
}

/// CPU `cpu` goes over from the task `prev` to the task `next`. If the context is changed, the task that
/// it comes from is noted, and its state stays locked.
pub open spec fn moved(
    pre: KernelView,
    cpu: usize,
    prev: AxTaskRef,
    next: AxTaskRef,
) -> KernelView {
    let v = processor_ref::claimed_on(pre, next);
    if leaves(v.sys, prev, next) {
        v.with_sys(with_lock(v.sys, prev, true).with_current(cpu, next)).with_proc(
            cpu,
            ProcessorView { prev: Some(prev), ..v.proc(cpu) },
        )
    } else {
        v
    }
}

/// What is left to do when the task `next` follows the task `prev`.
pub open spec fn move_work(pre: SystemView, prev: AxTaskRef, next: AxTaskRef) -> Switched {
    if leaves(pre, prev, next) {
        Switched::To(pre.switch_of(prev, next))
    } else {
        Switched::Stay
    }
}

/// CPU `cpu` takes the next task from its ready queue and goes over to it.
pub open spec fn scheduled<S: BaseScheduler>(
    pre: KernelView,
    cpu: usize,
    post: KernelView,
    work: Switched,
) -> bool {
    exists|mid: KernelView, next: AxTaskRef|
        {
            &&& #[trigger] settled::<S>(
                processor::picked_on(pre, cpu),
                cpu,
                processor::next_on(pre, cpu),
                mid,
                next,
            )
            &&& post == moved(mid, cpu, pre.sys.curr(cpu), next)
            &&& work == move_work(mid.sys, pre.sys.curr(cpu), next)
        }
}

/// A switch may come from a task in this state.
pub open spec fn can_leave(state: TaskState) -> bool {
    state == TaskState::Runable || state == TaskState::Blocking || state == TaskState::Exited
}

/// What [`schedule`] asks of the kernel: preemption of the running task is not disabled, its state is
/// not locked, and the task is neither `Running` nor `Blocked`.
pub open spec fn can_schedule(v: KernelView, cpu: usize) -> bool {
    let curr = v.sys.curr(cpu);
    &&& processor_ref::can_switch_on(v, cpu)
    &&& !v.sys.tasks[curr as int].state_locked
    &&& can_leave(v.sys.state(curr))
}

/// Lets CPU `cpu` run the next task.
pub fn schedule<S: BaseScheduler>(k: &mut Kernel<S>, cpu: usize) -> (work: Switched)
    requires
        old(k).wf(),
        can_schedule(old(k)@, cpu),
    ensures
        final(k).wf(),
        scheduled::<S>(old(k)@, cpu, final(k)@, work),
{
    let next_task = k.pick_on(cpu);
    switch_to(k, cpu, next_task)
}

/// Settles what becomes of the running task of CPU `cpu` when the task `next_task` is due; which task
/// runs next.
fn settle<S: BaseScheduler>(k: &mut Kernel<S>, cpu: usize, next_task: AxTaskRef) -> (next: AxTaskRef)
    requires
        old(k).wf(),
        can_schedule(old(k)@, cpu),
        old(k)@.sys.valid(next_task),
    ensures
        final(k).wf(),
        processor_ref::runs_on(final(k)@, cpu),
        final(k)@.sys.curr(cpu) == old(k)@.sys.curr(cpu),
        final(k)@.sys.valid(next),
        settled::<S>(old(k)@, cpu, next_task, final(k)@, next),
{
    let ghost pre = k@;
    let prev_task = k.system.curr(cpu);
    match k.system.tasks[prev_task].state {
        TaskState::Runable => {
            if k.system.tasks[next_task].inner.is_idle {
                return prev_task;
            }
            if !k.system.tasks[prev_task].inner.is_idle {
                let preempt = k.system.config.preempt
                    && k.system.tasks[prev_task].inner.preempt_pending;
                k.requeue_on(cpu, prev_task, preempt);
            }
        },
        TaskState::Blocking => {
            k.system.set_state(prev_task, TaskState::Blocked);
            proof {
                kernel::lemma_sys_changed(pre, k@.sys);
            }
        },
        _ => {},
    }
    next_task
}

/// Goes over from the running task of CPU `cpu` to the task that is due.
fn switch_to<S: BaseScheduler>(k: &mut Kernel<S>, cpu: usize, next_task: AxTaskRef) -> (work:
    Switched)
    requires
        old(k).wf(),
        can_schedule(old(k)@, cpu),
        old(k)@.sys.valid(next_task),
    ensures
        final(k).wf(),
        exists|mid: KernelView, next: AxTaskRef|
            {
                &&& #[trigger] settled::<S>(old(k)@, cpu, next_task, mid, next)
                &&& final(k)@ == moved(mid, cpu, old(k)@.sys.curr(cpu), next)
                &&& work == move_work(mid.sys, old(k)@.sys.curr(cpu), next)
            },
{
    let prev = k.system.curr(cpu);
    let next = settle(k, cpu, next_task);
    let ghost mid = k@;
    if k.system.config.preempt {
        k.system.set_preempt_pending(next, false);
    }
    proof {
        kernel::lemma_sys_changed(mid, k@.sys);
    }
    let again = k.system.config.coroutine && !k.system.tasks[next].inner.is_idle;
    if prev == next && !again {
        return Switched::Stay;
    }
    let work = k.system.switch_of(prev, next);
    leave(k, cpu, prev, next);
    Switched::To(work)
}

/// Notes that CPU `cpu` leaves the task `prev`, whose state stays locked until the switch is finished,
/// and lets it run the task `next`.
fn leave<S: BaseScheduler>(k: &mut Kernel<S>, cpu: usize, prev: AxTaskRef, next: AxTaskRef)
    requires
        old(k).wf(),
        processor_ref::runs_on(old(k)@, cpu),
        prev == old(k)@.sys.curr(cpu),
        old(k)@.sys.valid(next),
    ensures
        final(k).wf(),
        final(k)@ == old(k)@.with_sys(
            with_lock(old(k)@.sys, prev, true).with_current(cpu, next),
        ).with_proc(cpu, ProcessorView { prev: Some(prev), ..old(k)@.proc(cpu) }),
{
    let ghost pre = k@;
    let ghost p0 = pre.proc(cpu);
    k.system.tasks[prev].state_locked = true;
    assert(k.processors@.len() == pre.processors.len());
    assert(pre.processors[cpu as int] == kernel::processor_view(k.processors@[cpu as int]));
    match k.processors[cpu].as_mut() {
        Some(p) => {
            p.set_prev_ctx_save(PrevCtxSave::new(prev));
        },
        None => {},
    }
    CurrentTask::set_current(CurrentTask(prev), &mut k.system, cpu, next);
    proof {
        let p = ProcessorView { prev: Some(prev), ..p0 };
        processor::lemma_proc_changed(pre, cpu, p);
        kernel::lemma_sys_changed(pre.with_proc(cpu, p), k@.sys);
        assert(k@.processors =~= pre.with_proc(cpu, p).processors);
    }
}

/// The task `task` is woken: a task that is about to block goes on; a blocked task goes into the ready
/// queue of a processor that it may run on; a task that can run is left alone.
pub open spec fn woken_up<S: BaseScheduler>(
    pre: KernelView,
    task: AxTaskRef,
    post: KernelView,
) -> bool {
    let ready = pre.with_sys(pre.sys.with_state(task, TaskState::Runable));
    match pre.sys.state(task) {
        TaskState::Blocking => post == ready,
        TaskState::Runable => post == pre,
        TaskState::Blocked => exists|index: usize, mid: KernelView|
            {
                &&& #[trigger] processor::selected(
                    ready,
                    pre.sys.tasks[task as int].cpumask,
                    index,
                    mid,
                )
                &&& processor::enqueued_on::<S>(mid, index, task, post)
            },
        _ => false,
    }
}

/// Waking a task leaves all but its state and the ready queues.
pub proof fn lemma_woken_up<S: BaseScheduler>(pre: KernelView, task: AxTaskRef, post: KernelView)
    requires
        pre.wf(),
        pre.sys.valid(task),
        pre.sys.state(task) == TaskState::Blocked ==> processor_ref::can_select(
            pre,
            pre.sys.tasks[task as int].cpumask,
        ),
        woken_up::<S>(pre, task, post),
    ensures
        block::waking_keeps(pre, post),
{
    if pre.sys.state(task) == TaskState::Blocked {
        let ready = pre.with_sys(pre.sys.with_state(task, TaskState::Runable));
        let mask = pre.sys.tasks[task as int].cpumask;
        let (index, mid) = choose|index: usize, mid: KernelView|
            {
                &&& #[trigger] processor::selected(ready, mask, index, mid)
                &&& processor::enqueued_on::<S>(mid, index, task, post)
            };
        assert(mid.processors == pre.processors);
        assert(post.sys.tasks == ready.sys.tasks);
        processor::lemma_selected(ready, mask, index, mid);
        assert(pre.processors[index as int] is Some);
    }
}

/// Wakes a task.
pub fn wakeup_task<S: BaseScheduler>(k: &mut Kernel<S>, task: AxTaskRef)
    requires
        old(k).wf(),
        old(k)@.sys.valid(task),
        !old(k)@.sys.tasks[task as int].state_locked,
        old(k)@.sys.state(task) != TaskState::Running,
        old(k)@.sys.state(task) != TaskState::Exited,
        old(k)@.sys.state(task) == TaskState::Blocked ==> processor_ref::can_select(
            old(k)@,
            old(k)@.sys.tasks[task as int].cpumask,
        ),
    ensures
        final(k).wf(),
        woken_up::<S>(old(k)@, task, final(k)@),
{
    let ghost pre = k@;
    match k.system.tasks[task].state {
        TaskState::Blocking => {
            k.system.set_state(task, TaskState::Runable);
            proof {
                kernel::lemma_sys_changed(pre, k@.sys);
            }
        },
        TaskState::Blocked => {
            k.system.set_state(task, TaskState::Runable);
            proof {
                kernel::lemma_sys_changed(pre, k@.sys);
            }
            let processor = select_processor(k, task);
            processor.add_task(k, task);
        },
        _ => {},
    }
}

/// The running task of CPU `cpu` ends. The kernel ends with its first task; the exit code of any other
/// is stored, and the next task runs.
pub open spec fn exited<S: BaseScheduler>(
    pre: KernelView,
    cpu: usize,
    code: i32,
    post: KernelView,
    r: Exit,
) -> bool {
    let curr = pre.sys.curr(cpu);
    exists|b: KernelView|
        {
            &&& #[trigger] processor_ref::exit_told::<S>(pre, cpu, b)
            &&& if pre.sys.inner(curr).is_init {
                post == b && r == Exit::Terminate
            } else {
                r is Switch && scheduled::<S>(
                    b.with_sys(run_queue::with_exit_code(b.sys, curr, code)),
                    cpu,
                    post,
                    r->Switch_0,
                )
            }
        }
}

/// Ends the running task of CPU `cpu`.
pub fn exit_current<S: BaseScheduler>(k: &mut Kernel<S>, cpu: usize, exit_code: i32) -> (r: Exit)
    requires
        old(k).wf(),
        processor_ref::can_switch_on(old(k)@, cpu),
        processor_ref::can_tell_exit(old(k)@, cpu),
        !old(k)@.sys.tasks[old(k)@.sys.curr(cpu) as int].state_locked,
    ensures
        final(k).wf(),
        exited::<S>(old(k)@, cpu, exit_code, final(k)@, r),
{
    let curr = k.system.curr(cpu);
    current_processor(k, cpu).tell_exit(k);
    let ghost b = k@;
    if k.system.tasks[curr].inner.is_init {
        Processor::<S>::clean_all();
        return Exit::Terminate;
    }
    k.system.set_exit_code(curr, exit_code);
    proof {
        kernel::lemma_sys_changed(b, k@.sys);
    }
    Exit::Switch(schedule(k, cpu))
}

/// How a task gives up the CPU.
#[derive(Clone, Copy, Debug, PartialEq, Eq, Structural)]
pub enum Yielded {
    /// The next task runs.
    Switch(Switched),
    /// The context of the task is to be saved at the first place, and the CPU schedules in the context
    /// that is to be made at the second.
    Stack(usize, usize),
}

/// The running task of CPU `cpu` gives up the CPU and stays ready to run. A coroutine is left in the
/// middle, for a free stack or the new one whose top is `spare`.
pub fn yield_current<S: BaseScheduler>(k: &mut Kernel<S>, cpu: usize, spare: usize) -> (r: Yielded)
    requires
        old(k).wf(),
        can_schedule(old(k)@, cpu),
        old(k)@.sys.state(old(k)@.sys.curr(cpu)) == TaskState::Runable,
        old(k)@.sys.config.coroutine ==> task_switch::can_prepare(old(k)@, cpu, spare),
    ensures
        final(k).wf(),
        match r {
            Yielded::Switch(work) => {
                &&& !old(k)@.sys.config.coroutine
                &&& scheduled::<S>(old(k)@, cpu, final(k)@, work)
            },
            Yielded::Stack(ctx_ref, ctx) => {
                &&& old(k)@.sys.config.coroutine
                &&& ctx_ref == old(k)@.sys.inner(old(k)@.sys.curr(cpu)).ctx_ref
                &&& ctx == task_switch::new_context(old(k)@, cpu, spare)
                &&& final(k)@ == task_switch::left(old(k)@, cpu, spare)
            },
        },
{
    if k.system.config.coroutine {
        let (ctx_ref, ctx) = task_switch::yield_switch_entry(k, cpu, spare);
        Yielded::Stack(ctx_ref, ctx)
    } else {
        Yielded::Switch(schedule(k, cpu))
    }
}

/// Lets the running task of CPU `cpu` sleep until it is woken. The alarm that is handed out is to be set
/// before the switch is carried out; when the task runs again,
/// [`schedule_timeout_resume`](run_queue::schedule_timeout_resume) follows.
pub fn schedule_timeout<S: BaseScheduler>(
    k: &mut Kernel<S>,
    cpu: usize,
    deadline: TimeValue,
) -> (r: (Alarm, Switched))
    requires
        old(k).wf(),
        can_schedule(old(k)@, cpu),
        !old(k)@.sys.inner(old(k)@.sys.curr(cpu)).is_idle,
    ensures
        final(k).wf(),
        r.0 == (Alarm { deadline, task: old(k)@.sys.curr(cpu) }),
        scheduled::<S>(old(k)@, cpu, final(k)@, r.1),
{
    let curr = k.system.curr(cpu);
    let work = schedule(k, cpu);
    (Alarm { deadline, task: curr }, work)
}

/// Accounts a timer tick to the running task of CPU `cpu`.
pub fn scheduler_timer_tick<S: BaseScheduler>(k: &mut Kernel<S>, cpu: usize)
    requires
        old(k).wf(),
        processor_ref::runs_on(old(k)@, cpu),
        run_queue::can_tick::<S>(old(k)@.sys, cpu),
    ensures
        final(k).wf(),
        final(k)@ == old(k)@.with_sys(final(k)@.sys),
        run_queue::ticked::<S>(old(k)@.sys, cpu, old(k)@.proc(cpu).ready, final(k)@.sys),
{
    current_processor(k, cpu).scheduler_timer_tick(k);
}

/// Sets the priority of the running task of CPU `cpu`; `true` if the policy takes it.
pub fn set_current_priority<S: BaseScheduler>(k: &mut Kernel<S>, cpu: usize, prio: isize) -> (r: bool)
    requires
        old(k).wf(),
        processor_ref::runs_on(old(k)@, cpu),
        run_queue::holds_item(old(k)@.sys, cpu),
    ensures
        final(k).wf(),
        r == S::accepts(prio),
        final(k)@ == old(k)@.with_sys(
            run_queue::reprioritised::<S>(old(k)@.sys, cpu, prio),
        ),
{
    current_processor(k, cpu).set_current_priority(k, prio)
}

/// A yield of a coroutine: it is left once and goes on when it is polled again.
#[derive(Clone, Copy, Debug, PartialEq, Eq, Structural)]
pub struct Yielding {
    pub flag: bool,
}

/// A yield that has not begun.
pub fn yield_helper() -> (r: Yielding)
    ensures
        !r.flag,
{
    Yielding { flag: false }
}

impl Yielding {
    /// Polls the yield; `true` if the coroutine goes on.
    pub fn poll(&mut self) -> (ready: bool)
        ensures
            ready == old(self).flag,
            final(self).flag == !old(self).flag,
    {
        self.flag = !self.flag;
        !self.flag
    }
}

/// The running coroutine of CPU `cpu` gives up the CPU and stays ready to run.
pub fn async_yield_current<S: BaseScheduler>(k: &Kernel<S>, cpu: usize) -> (r: Yielding)
    requires
        k.wf(),
        k@.sys.running(cpu),
        k@.sys.state(k@.sys.curr(cpu)) == TaskState::Runable,
    ensures
        !r.flag,
{
    yield_helper()
}

/// The sleep of a coroutine: it is left once, with its alarm set, and goes on when it is polled again.
#[derive(Clone, Copy, Debug, PartialEq, Eq, Structural)]
pub struct Sleeping {
    pub alarm: Alarm,
    pub flag: bool,
}

/// Lets the running coroutine of CPU `cpu` sleep until it is woken. The alarm is to be set before the
/// sleep is polled.
pub fn async_schedule_timeout<S: BaseScheduler>(
    k: &Kernel<S>,
    cpu: usize,
    deadline: TimeValue,
) -> (r: Sleeping)
    requires
        k.wf(),
        k@.sys.running(cpu),
        !k@.sys.inner(k@.sys.curr(cpu)).is_idle,
    ensures
        r.alarm == (Alarm { deadline, task: k@.sys.curr(cpu) }),
        !r.flag,
{
    Sleeping { alarm: Alarm { deadline, task: k.system.curr(cpu) }, flag: false }
}

impl Sleeping {
    /// Polls the sleep at the time `now`. If the coroutine goes on, whether its deadline has passed; it
    /// may have been woken earlier by others, so its alarm is to be cancelled.
    pub fn poll(&mut self, now: TimeValue) -> (ready: Option<bool>)
        ensures
            ready == if old(self).flag {
                Some(now >= old(self).alarm.deadline)
            } else {
                None
            },
            final(self).alarm == old(self).alarm,
            final(self).flag == !old(self).flag,
    {
        self.flag = !self.flag;
        if self.flag {
            None
        } else {
            Some(run_queue::schedule_timeout_resume(self.alarm, now))
        }
    }
}

} // verus!
