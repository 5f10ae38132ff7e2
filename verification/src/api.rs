//! What a kernel does with its tasks.
use crate::block;
use crate::config::{TimeValue, MAX_TIME};
use crate::cpumask::CpuMask;
use crate::exit;
use crate::exit::Exit;
use crate::kernel;
use crate::kernel::{Kernel, KernelView};
use crate::processor;
use crate::processor_ref;
use crate::processor_ref::select_processor;
use crate::run_queue;
use crate::run_queue::Alarm;
use crate::sched;
use crate::sched::BaseScheduler;
use crate::schedule;
use crate::schedule::{Sleeping, Yielding};
use crate::system;
use crate::system::{AxTaskRef, Switched, SystemView};
use crate::task;
use crate::task::{new_task, Allocation, CurrentTask, TaskRequest, TaskState};
use crate::task_switch;
use crate::wait_queue;
use crate::wait_queue::Waiting;
use vstd::prelude::*;

verus! {

/// The task that CPU `cpu` runs, if it runs one yet.
pub fn current_may_uninit<S: BaseScheduler>(k: &Kernel<S>, cpu: usize) -> (r: Option<CurrentTask>)
    requires
        cpu < k@.sys.current.len(),
    ensures
        r == match k@.sys.current[cpu as int] {
            Some(task) => Some(CurrentTask(task)),
            None => None,
        },
{
    CurrentTask::try_get(&k.system, cpu)
}

/// The task that CPU `cpu` runs.
pub fn current<S: BaseScheduler>(k: &Kernel<S>, cpu: usize) -> (r: CurrentTask)
    requires
        k@.sys.running(cpu),
    ensures
        r.0 == k@.sys.curr(cpu),
{
    CurrentTask::get(&k.system, cpu)
}

/// Initializes the task scheduler on the first CPU. Where tasks are coroutines, the stack whose top is
/// `free_stack` is kept ready to be switched to. Hands out the thread pointer that is to be written, if any.
pub fn init_scheduler<S: BaseScheduler>(
    k: &mut Kernel<S>,
    cpu: usize,
    idle_alloc: Allocation,
    gc_alloc: Allocation,
    main_tls: usize,
    free_stack: usize,
) -> (tls: Option<usize>)
    requires
        old(k).wf(),
        cpu < old(k)@.processors.len(),
        old(k)@.processors[cpu as int] is None,
        sched::countable(old(k)@.sys.tasks.len() + 3),
        task::fits(old(k)@.sys.config, idle_alloc),
        task::fits(old(k)@.sys.config, gc_alloc),
    ensures
        final(k).wf(),
        processor_ref::initialized_on::<S>(
            old(k)@,
            cpu,
            idle_alloc,
            gc_alloc,
            main_tls,
            free_stack,
            final(k)@,
        ),
        tls == run_queue::thread_pointer(old(k)@.sys.config, main_tls),
{
    processor_ref::init(k, cpu, idle_alloc, gc_alloc, main_tls, free_stack)
}

/// Initializes the task scheduler on another CPU. Where tasks are coroutines, the stack whose top is
/// `free_stack` is kept ready to be switched to. Hands out the thread pointer that is to be written, if any.
pub fn init_scheduler_secondary<S: BaseScheduler>(
    k: &mut Kernel<S>,
    cpu: usize,
    gc_alloc: Allocation,
    tls_ptr: usize,
    free_stack: usize,
) -> (tls: Option<usize>)
    requires
        old(k).wf(),
        cpu < old(k)@.processors.len(),
        old(k)@.processors[cpu as int] is None,
        sched::countable(old(k)@.sys.tasks.len() + 2),
        task::fits(old(k)@.sys.config, gc_alloc),
    ensures
        final(k).wf(),
        processor_ref::initialized_secondary_on::<S>(
            old(k)@,
            cpu,
            gc_alloc,
            tls_ptr,
            free_stack,
            final(k)@,
        ),
        tls == run_queue::thread_pointer(old(k)@.sys.config, tls_ptr),
{
    processor_ref::init_secondary(k, cpu, gc_alloc, tls_ptr, free_stack)
}

/// Handles a periodic timer tick on CPU `cpu`. Alarms that are due are to be looked after first.
pub fn on_timer_tick<S: BaseScheduler>(k: &mut Kernel<S>, cpu: usize)
    requires
        old(k).wf(),
        processor_ref::runs_on(old(k)@, cpu),
        run_queue::can_tick::<S>(old(k)@.sys, cpu),
    ensures
        final(k).wf(),
        final(k)@ == old(k)@.with_sys(final(k)@.sys),
        run_queue::ticked::<S>(old(k)@.sys, cpu, old(k)@.proc(cpu).ready, final(k)@.sys),
{
    schedule::scheduler_timer_tick(k, cpu);
}

/// What follows a check for preemption.
#[derive(Clone, Copy, Debug, PartialEq, Eq, Structural)]
pub enum Preemption {
    /// The running task is not preempted.
    Stay,
    /// The next task runs.
    Switch(Switched),
    /// The CPU schedules in the context that is to be made at this place.
    Stack(usize),
}

/// The running task of CPU `cpu` is to be preempted: it should be, it can be, and it is not about to
/// give up the CPU anyway.
pub open spec fn to_be_preempted(v: SystemView, cpu: usize) -> bool {
    let curr = v.curr(cpu);
    &&& v.inner(curr).preempt_pending
    &&& v.inner(curr).preempt_disable_count == 0
    &&& v.state(curr) != TaskState::Exited
    &&& v.state(curr) != TaskState::Blocking
}

/// Checks whether the running task of CPU `cpu` should be preempted, after an interrupt. The context of
/// an interrupted coroutine was saved at `ctx_ref`; the CPU then schedules on a free stack, or on the
/// new one whose top is `spare`.
pub fn current_check_preempt_pending<S: BaseScheduler>(
    k: &mut Kernel<S>,
    cpu: usize,
    ctx_ref: usize,
    spare: usize,
) -> (r: Preemption)
    requires
        old(k).wf(),
        processor_ref::runs_on(old(k)@, cpu),
        to_be_preempted(old(k)@.sys, cpu) ==> if old(k)@.sys.config.coroutine {
            task_switch::can_prepare(old(k)@, cpu, spare)
        } else {
            schedule::can_schedule(old(k)@, cpu)
        },
    ensures
        final(k).wf(),
        r is Stay <==> !to_be_preempted(old(k)@.sys, cpu),
        match r {
            Preemption::Stay => final(k)@ == old(k)@,
            Preemption::Switch(work) => {
                &&& !old(k)@.sys.config.coroutine
                &&& schedule::scheduled::<S>(old(k)@, cpu, final(k)@, work)
            },
            Preemption::Stack(ctx) => {
                &&& old(k)@.sys.config.coroutine
                &&& ctx == task_switch::new_context(old(k)@, cpu, spare)
                &&& final(k)@ == task_switch::preempted(old(k)@, cpu, ctx_ref, spare)
            },
        },
{
    let curr = k.system.curr(cpu);
    let t = &k.system.tasks[curr];
    if t.inner.preempt_pending && t.inner.preempt_disable_count == 0 && !t.is_exited()
        && !t.is_blocking() {
        if k.system.config.coroutine {
            Preemption::Stack(task_switch::preempt_switch_entry(k, cpu, ctx_ref, spare))
        } else {
            Preemption::Switch(schedule::schedule(k, cpu))
        }
    } else {
        Preemption::Stay
    }
}

/// The kernel `post` is the kernel `pre` with a new task `task` in the ready queue of a processor.
pub open spec fn spawned<S: BaseScheduler>(
    pre: KernelView,
    name: Seq<char>,
    stack_size: usize,
    alloc: Allocation,
    task: AxTaskRef,
    post: KernelView,
) -> bool {
    let cpus = pre.processors.len() as usize;
    let t = post.sys.tasks[task as int];
    &&& task == pre.sys.tasks.len()
    &&& task::is_kernel_task(t, pre.sys.config, cpus, name, stack_size, alloc)
    &&& exists|index: usize, mid: KernelView|
        {
            &&& #[trigger] processor::selected(
                pre.with_new_task(t, S::initial(task)),
                CpuMask::first(cpus),
                index,
                mid,
            )
            &&& processor::enqueued_on::<S>(mid, index, task, post)
        }
}

/// Spawns a new task with the given parameters; the new task.
pub fn spawn_raw<S: BaseScheduler>(
    k: &mut Kernel<S>,
    name: String,
    stack_size: usize,
    alloc: Allocation,
) -> (r: AxTaskRef)
    requires
        old(k).wf(),
        sched::countable(old(k)@.sys.tasks.len() + 1),
        task::fits(old(k)@.sys.config, alloc),
        processor_ref::can_select(old(k)@, CpuMask::first(old(k)@.processors.len() as usize)),
    ensures
        final(k).wf(),
        spawned::<S>(old(k)@, name@, stack_size, alloc, r, final(k)@),
{
    let process_id = k.system.config.kernel_process_id;
    let task = new_task(
        k,
        TaskRequest { name, stack_size, process_id, page_table_token: 0 },
        alloc,
    );
    let ghost made = k@;
    assert(made.processors == old(k)@.processors);
    let processor = select_processor(k, task);
    processor.add_task(k, task);
    assert(k@.sys.tasks == made.sys.tasks);
    task
}

/// Spawns a new task without a name and with the stack size that is set for tasks; the new task.
pub fn spawn<S: BaseScheduler>(k: &mut Kernel<S>, alloc: Allocation) -> (r: AxTaskRef)
    requires
        old(k).wf(),
        sched::countable(old(k)@.sys.tasks.len() + 1),
        task::fits(old(k)@.sys.config, alloc),
        processor_ref::can_select(old(k)@, CpuMask::first(old(k)@.processors.len() as usize)),
    ensures
        final(k).wf(),
        spawned::<S>(
            old(k)@,
            Seq::empty(),
            old(k)@.sys.config.task_stack_size,
            alloc,
            r,
            final(k)@,
        ),
{
    let stack_size = k.system.config.task_stack_size;
    spawn_raw(k, String::new(), stack_size, alloc)
}

/// Sets the priority of the running task of CPU `cpu`; `true` if the priority is set.
///
/// The range of the priority depends on the policy. The fair one takes nice values, from -20 to 19.
pub fn set_priority<S: BaseScheduler>(k: &mut Kernel<S>, cpu: usize, prio: isize) -> (r: bool)
    requires
        old(k).wf(),
        processor_ref::runs_on(old(k)@, cpu),
        run_queue::holds_item(old(k)@.sys, cpu),
    ensures
        final(k).wf(),
        r == S::accepts(prio),
        final(k)@ == old(k)@.with_sys(
            run_queue::reprioritised::<S>(old(k)@.sys, cpu, prio),
        ),
{
    schedule::set_current_priority(k, cpu, prio)
}

/// How a task gives up the CPU for now.
#[derive(Clone, Copy, Debug, PartialEq, Eq, Structural)]
pub enum YieldNow {
    /// The next task runs.
    Switch(Switched),
    /// The coroutine awaits this.
    Await(Yielding),
}

/// The running task of CPU `cpu` gives up the CPU voluntarily, and another ready task runs.
pub fn yield_now<S: BaseScheduler>(k: &mut Kernel<S>, cpu: usize) -> (r: YieldNow)
    requires
        old(k).wf(),
        old(k)@.sys.running(cpu),
        old(k)@.sys.state(old(k)@.sys.curr(cpu)) == TaskState::Runable,
        !old(k)@.sys.config.coroutine ==> schedule::can_schedule(old(k)@, cpu),
    ensures
        final(k).wf(),
        match r {
            YieldNow::Switch(work) => {
                &&& !old(k)@.sys.config.coroutine
                &&& schedule::scheduled::<S>(old(k)@, cpu, final(k)@, work)
            },
            YieldNow::Await(y) => {
                &&& old(k)@.sys.config.coroutine
                &&& !y.flag
                &&& final(k)@ == old(k)@
            },
        },
{
    if k.system.config.coroutine {
        YieldNow::Await(schedule::async_yield_current(k, cpu))
    } else {
        YieldNow::Switch(schedule::schedule(k, cpu))
    }
}

/// How a task sleeps.
#[derive(Clone, Copy, Debug, PartialEq, Eq, Structural)]
pub enum Sleep {
    /// The alarm is to be set, then the switch is to be carried out. When the task runs again,
    /// [`schedule_timeout_resume`](run_queue::schedule_timeout_resume) follows.
    Alarm(Alarm, Switched),
    /// The alarm is to be set, and the coroutine awaits this.
    Await(Sleeping),
    /// The CPU is kept busy until this time.
    BusyWait(TimeValue),
}

/// The running task of CPU `cpu` wants to block.
pub open spec fn blocking(pre: KernelView, cpu: usize) -> KernelView {
    pre.with_sys(pre.sys.with_state(pre.sys.curr(cpu), TaskState::Blocking))
}

/// Lets the running task of CPU `cpu` sleep for the duration `dur` from the time `now`.
///
/// Without timer interrupts the CPU is kept busy instead.
pub fn sleep<S: BaseScheduler>(k: &mut Kernel<S>, cpu: usize, now: TimeValue, dur: TimeValue) -> (r:
    Sleep)
    requires
        old(k).wf(),
        now + dur <= MAX_TIME,
        can_sleep(old(k)@, cpu),
    ensures
        final(k).wf(),
        asleep::<S>(old(k)@, cpu, (now + dur) as TimeValue, final(k)@, r),
{
    sleep_until(k, cpu, now + dur)
}

/// What [`sleep_until`] asks of the kernel.
pub open spec fn can_sleep(v: KernelView, cpu: usize) -> bool {
    let curr = v.sys.curr(cpu);
    v.sys.config.irq ==> {
        &&& v.sys.running(cpu)
        &&& v.sys.state(curr) == TaskState::Runable || v.sys.state(curr) == TaskState::Blocking
        &&& !v.sys.inner(curr).is_idle
        &&& !v.sys.config.coroutine ==> {
            &&& processor_ref::can_switch_on(v, cpu)
            &&& !v.sys.tasks[curr as int].state_locked
        }
    }
}

/// The running task of CPU `cpu` sleeps until the time `deadline`.
pub open spec fn asleep<S: BaseScheduler>(
    pre: KernelView,
    cpu: usize,
    deadline: TimeValue,
    post: KernelView,
    r: Sleep,
) -> bool {
    let alarm = Alarm { deadline, task: pre.sys.curr(cpu) };
    if !pre.sys.config.irq {
        post == pre && r == Sleep::BusyWait(deadline)
    } else if pre.sys.config.coroutine {
        post == blocking(pre, cpu) && r == Sleep::Await(Sleeping { alarm, flag: false })
    } else {
        &&& r is Alarm
        &&& r->Alarm_0 == alarm
        &&& schedule::scheduled::<S>(blocking(pre, cpu), cpu, post, r->Alarm_1)
    }
}

/// Lets the running task of CPU `cpu` sleep; it will be woken up at the time `deadline`.
///
/// Without timer interrupts the CPU is kept busy instead.
pub fn sleep_until<S: BaseScheduler>(k: &mut Kernel<S>, cpu: usize, deadline: TimeValue) -> (r: Sleep)
    requires
        old(k).wf(),
        can_sleep(old(k)@, cpu),
    ensures
        final(k).wf(),
        asleep::<S>(old(k)@, cpu, deadline, final(k)@, r),
{
    if !k.system.config.irq {
        return Sleep::BusyWait(deadline);
    }
    let curr = k.system.curr(cpu);
    k.system.set_state(curr, TaskState::Blocking);
    proof {
        kernel::lemma_sys_changed(old(k)@, k@.sys);
    }
    if k.system.config.coroutine {
        return Sleep::Await(schedule::async_schedule_timeout(k, cpu, deadline));
    }
    let (alarm, work) = schedule::schedule_timeout(k, cpu, deadline);
    Sleep::Alarm(alarm, work)
}

/// Wakes up a task.
pub fn wakeup_task<S: BaseScheduler>(k: &mut Kernel<S>, task: AxTaskRef)
    requires
        old(k).wf(),
        old(k)@.sys.valid(task),
        !old(k)@.sys.tasks[task as int].state_locked,
        old(k)@.sys.state(task) != TaskState::Running,
        old(k)@.sys.state(task) != TaskState::Exited,
        old(k)@.sys.state(task) == TaskState::Blocked ==> processor_ref::can_select(
            old(k)@,
            old(k)@.sys.tasks[task as int].cpumask,
        ),
    ensures
        final(k).wf(),
        schedule::woken_up::<S>(old(k)@, task, final(k)@),
{
    schedule::wakeup_task(k, task)
}

/// The tasks `q` wait for the exit of the task `task`.
pub open spec fn with_joiners(
    pre: KernelView,
    task: AxTaskRef,
    q: Seq<AxTaskRef>,
) -> KernelView {
    KernelView { joins: pre.joins.insert(task, q), ..pre }
}

/// The running task of CPU `cpu` waits for the exit of the task `task`, until a condition that may hold
/// already. If the exit was told already, there is nothing to wait for.
pub open spec fn exit_awaited<S: BaseScheduler>(
    pre: KernelView,
    cpu: usize,
    task: AxTaskRef,
    condition: bool,
    post: KernelView,
    r: Waiting,
) -> bool {
    let curr = pre.sys.curr(cpu);
    let q = pre.joins[task];
    if !pre.joins.contains_key(task) {
        post == pre && r == Waiting::Done
    } else if condition {
        &&& post == with_joiners(
            wait_queue::waiting(pre, cpu),
            task,
            wait_queue::without(q, curr),
        )
        &&& r == Waiting::Done
    } else {
        &&& r is Again
        &&& block::blocked::<S>(
            with_joiners(wait_queue::waiting(pre, cpu), task, q.push(curr)),
            cpu,
            post,
            r->Again_0,
        )
    }
}

/// Lets the running task of CPU `cpu` wait for the exit of a task, until a condition that may hold
/// already. When it runs again, [`wait_for_exit_again`] follows.
fn wait_for_exit<S: BaseScheduler>(
    k: &mut Kernel<S>,
    cpu: usize,
    task: AxTaskRef,
    condition: bool,
) -> (r: Waiting)
    requires
        old(k).wf(),
        old(k)@.joins.contains_key(task) ==> wait_queue::can_wait(old(k)@, cpu, condition),
    ensures
        final(k).wf(),
        exit_awaited::<S>(old(k)@, cpu, task, condition, final(k)@, r),
{
    let ghost pre = k@;
    match k.wait_for_task_exits.remove(&task) {
        None => {
            assert(k@.joins =~= pre.joins);
            Waiting::Done
        },
        Some(mut queue) => {
            let ghost q = queue@;
            assert(pre.joins.contains_key(task));
            assert(q == pre.joins[task]);
            let curr = queue.enter(&mut k.system, cpu);
            if condition {
                queue.leave(curr);
            }
            let ghost left = queue@;
            k.wait_for_task_exits.insert(task, queue);
            proof {
                wait_queue::lemma_without_push(q, curr);
                system::lemma_filtered_valid(pre.sys, q, wait_queue::other_than(curr));
                assert(k@.joins =~= pre.joins.insert(task, left));
                kernel::lemma_sys_changed(pre, k@.sys);
                assert(k@.has_processor(cpu) == pre.has_processor(cpu));
            }
            if condition {
                Waiting::Done
            } else {
                Waiting::Again(block::block_current(k, cpu))
            }
        },
    }
}

/// The task `me` goes on waiting for the exit of the task `task`, until a condition that may hold now.
pub open spec fn exit_awaited_again<S: BaseScheduler>(
    pre: KernelView,
    cpu: usize,
    task: AxTaskRef,
    me: AxTaskRef,
    condition: bool,
    post: KernelView,
    r: Waiting,
) -> bool {
    if condition {
        &&& post == if pre.joins.contains_key(task) {
            with_joiners(pre, task, wait_queue::without(pre.joins[task], me))
        } else {
            pre
        }
        &&& r == Waiting::Done
    } else {
        r is Again && block::blocked::<S>(pre, cpu, post, r->Again_0)
    }
}

/// Goes on with the wait of the task `me`, which runs again on CPU `cpu`.
fn wait_for_exit_again<S: BaseScheduler>(
    k: &mut Kernel<S>,
    cpu: usize,
    task: AxTaskRef,
    me: AxTaskRef,
    condition: bool,
) -> (r: Waiting)
    requires
        old(k).wf(),
        condition || block::can_block(old(k)@, cpu),
    ensures
        final(k).wf(),
        exit_awaited_again::<S>(old(k)@, cpu, task, me, condition, final(k)@, r),
{
    let ghost pre = k@;
    if !condition {
        return Waiting::Again(block::block_current(k, cpu));
    }
    match k.wait_for_task_exits.remove(&task) {
        None => {
            assert(k@.joins =~= pre.joins);
        },
        Some(mut queue) => {
            let ghost q = queue@;
            assert(pre.joins.contains_key(task));
            assert(q == pre.joins[task]);
            queue.leave(me);
            let ghost left = queue@;
            k.wait_for_task_exits.insert(task, queue);
            proof {
                system::lemma_filtered_valid(pre.sys, q, wait_queue::other_than(me));
                assert(k@.joins =~= pre.joins.insert(task, left));
            }
        },
    }
    Waiting::Done
}

/// How far a task has come that waits for the exit of another.
#[derive(Clone, Copy, Debug, PartialEq, Eq, Structural)]
pub enum Joining {
    /// The other task has exited with this code.
    Exited(i32),
    /// The task tests again when it runs again; until then this is to be done.
    Again(Switched),
}

/// Lets the running task of CPU `cpu` sleep until the given task exits; what that task exits with.
///
/// If the given task has already exited, the wait is over at once. A task that is woken goes on with
/// [`join_again`].
pub fn join<S: BaseScheduler>(k: &mut Kernel<S>, cpu: usize, task: AxTaskRef) -> (r: Joining)
    requires
        old(k).wf(),
        old(k)@.sys.valid(task),
        old(k)@.joins.contains_key(task) ==> wait_queue::can_wait(
            old(k)@,
            cpu,
            old(k)@.sys.state(task) == TaskState::Exited,
        ),
    ensures
        final(k).wf(),
        r is Exited <==> !old(k)@.joins.contains_key(task) || old(k)@.sys.state(task)
            == TaskState::Exited,
        r is Exited ==> r->Exited_0 == old(k)@.sys.inner(task).exit_code,
        exit_awaited::<S>(
            old(k)@,
            cpu,
            task,
            old(k)@.sys.state(task) == TaskState::Exited,
            final(k)@,
            match r {
                Joining::Exited(_) => Waiting::Done,
                Joining::Again(work) => Waiting::Again(work),
            },
        ),
{
    let exited = k.system.tasks[task].is_exited();
    let code = k.system.tasks[task].inner.exit_code;
    match wait_for_exit(k, cpu, task, exited) {
        Waiting::Done => Joining::Exited(code),
        Waiting::Again(work) => Joining::Again(work),
    }
}

/// Goes on with the wait of the task `me` for the exit of the given task, when `me` runs again on CPU
/// `cpu`.
pub fn join_again<S: BaseScheduler>(
    k: &mut Kernel<S>,
    cpu: usize,
    task: AxTaskRef,
    me: AxTaskRef,
) -> (r: Joining)
    requires
        old(k).wf(),
        old(k)@.sys.valid(task),
        old(k)@.sys.state(task) == TaskState::Exited || block::can_block(old(k)@, cpu),
    ensures
        final(k).wf(),
        r is Exited <==> old(k)@.sys.state(task) == TaskState::Exited,
        r is Exited ==> r->Exited_0 == old(k)@.sys.inner(task).exit_code,
        exit_awaited_again::<S>(
            old(k)@,
            cpu,
            task,
            me,
            old(k)@.sys.state(task) == TaskState::Exited,
            final(k)@,
            match r {
                Joining::Exited(_) => Waiting::Done,
                Joining::Again(work) => Waiting::Again(work),
            },
        ),
{
    let exited = k.system.tasks[task].is_exited();
    let code = k.system.tasks[task].inner.exit_code;
    match wait_for_exit_again(k, cpu, task, me, exited) {
        Waiting::Done => Joining::Exited(code),
        Waiting::Again(work) => Joining::Again(work),
    }
}

/// The task `task` has left the process that it was made in: it leads a new one, or has exited.
pub open spec fn left_vfork(v: SystemView, task: AxTaskRef) -> bool {
    v.inner(task).is_leader || v.state(task) == TaskState::Exited
}

/// Lets the running task of CPU `cpu` sleep. It will be woken up when the given task executes another
/// program, with which it leads a new process, or exits. A task that is woken goes on with
/// [`vfork_suspend_again`].
pub fn vfork_suspend<S: BaseScheduler>(k: &mut Kernel<S>, cpu: usize, task: AxTaskRef) -> (r: Waiting)
    requires
        old(k).wf(),
        old(k)@.sys.valid(task),
        old(k)@.joins.contains_key(task) ==> wait_queue::can_wait(
            old(k)@,
            cpu,
            left_vfork(old(k)@.sys, task),
        ),
    ensures
        final(k).wf(),
        r is Done <==> !old(k)@.joins.contains_key(task) || old(k)@.sys.state(task)
            == TaskState::Exited || old(k)@.sys.inner(task).is_leader,
        exit_awaited::<S>(
            old(k)@,
            cpu,
            task,
            left_vfork(old(k)@.sys, task),
            final(k)@,
            r,
        ),
{
    let t = &k.system.tasks[task];
    let left = t.inner.is_leader || t.is_exited();
    wait_for_exit(k, cpu, task, left)
}

/// Goes on with the sleep of the task `me` when it runs again on CPU `cpu`.
pub fn vfork_suspend_again<S: BaseScheduler>(
    k: &mut Kernel<S>,
    cpu: usize,
    task: AxTaskRef,
    me: AxTaskRef,
) -> (r: Waiting)
    requires
        old(k).wf(),
        old(k)@.sys.valid(task),
        left_vfork(old(k)@.sys, task) || block::can_block(old(k)@, cpu),
    ensures
        final(k).wf(),
        r is Done <==> old(k)@.sys.state(task) == TaskState::Exited || old(k)@.sys.inner(
            task,
        ).is_leader,
        exit_awaited_again::<S>(
            old(k)@,
            cpu,
            task,
            me,
            left_vfork(old(k)@.sys, task),
            final(k)@,
            r,
        ),
{
    let t = &k.system.tasks[task];
    let left = t.inner.is_leader || t.is_exited();
    wait_for_exit_again(k, cpu, task, me, left)
}

/// Those who wait for the task `task` are woken, and go on waiting if they have reason to.
pub open spec fn vfork_woken<S: BaseScheduler>(
    pre: KernelView,
    cpu: usize,
    task: AxTaskRef,
    post: KernelView,
) -> bool {
    if pre.joins.contains_key(task) {
        exists|mid: KernelView|
            {
                &&& #[trigger] wait_queue::all_woken::<S>(
                    KernelView { joins: pre.joins.remove(task), ..pre },
                    cpu,
                    pre.joins[task],
                    false,
                    mid,
                )
                &&& post == (KernelView { joins: pre.joins, ..mid })
            }
    } else {
        post == pre
    }
}

/// Wakes up the task that is blocked because it made the given task by `vfork`.
pub fn wake_vfork_process<S: BaseScheduler>(k: &mut Kernel<S>, cpu: usize, task: AxTaskRef)
    requires
        old(k).wf(),
        exit::can_notify(old(k)@, cpu, task),
    ensures
        final(k).wf(),
        vfork_woken::<S>(old(k)@, cpu, task, final(k)@),
{
    let ghost pre = k@;
    match k.wait_for_task_exits.remove(&task) {
        None => {
            assert(k@.joins =~= pre.joins);
        },
        Some(queue) => {
            let ghost q = queue@;
            let ghost gone = k@;
            assert(pre.joins.contains_key(task));
            assert(q == pre.joins[task]);
            assert(gone.joins =~= pre.joins.remove(task));
            proof {
                assert forall|i: int| 0 <= i < q.len() implies block::can_wake(
                    gone,
                    cpu,
                    #[trigger] q[i],
                    false,
                ) by {
                    assert(block::can_wake(pre, cpu, pre.joins[task][i], false));
                    exit::lemma_can_wake_gone(pre, cpu, q[i], task);
                }
            }
            queue.notify_all(k, cpu, false);
            let ghost mid = k@;
            k.wait_for_task_exits.insert(task, queue);
            assert(k@.joins =~= pre.joins);
            assert(k@ == (KernelView { joins: pre.joins, ..mid }));
        },
    }
}

/// Exits the running task of CPU `cpu`.
pub fn exit<S: BaseScheduler>(k: &mut Kernel<S>, cpu: usize, exit_code: i32) -> (r: Exit)
    requires
        old(k).wf(),
        processor_ref::can_switch_on(old(k)@, cpu),
        processor_ref::can_tell_exit(old(k)@, cpu),
        !old(k)@.sys.tasks[old(k)@.sys.curr(cpu) as int].state_locked,
    ensures
        final(k).wf(),
        schedule::exited::<S>(old(k)@, cpu, exit_code, final(k)@, r),
{
    schedule::exit_current(k, cpu, exit_code)
}

/// One round of the idle task of CPU `cpu`: it yields, then waits for interrupts where there are any.
pub fn run_idle<S: BaseScheduler>(k: &mut Kernel<S>, cpu: usize) -> (work: Switched)
    requires
        old(k).wf(),
        schedule::can_schedule(old(k)@, cpu),
        !old(k)@.sys.config.coroutine ==> old(k)@.sys.state(old(k)@.sys.curr(cpu))
            == TaskState::Runable,
    ensures
        final(k).wf(),
        schedule::scheduled::<S>(old(k)@, cpu, final(k)@, work),
{
    schedule::schedule(k, cpu)
}

/// What an idle coroutine does in one round.
#[derive(Clone, Copy, Debug, PartialEq, Eq, Structural)]
pub struct IdleRound {
    /// The coroutine awaits this first.
    pub yielding: Yielding,
    /// The CPU then waits for the next interrupt.
    pub wait_for_irqs: bool,
}

/// One round of an idle coroutine of CPU `cpu`: it yields, then waits for interrupts where there are
/// any.
pub fn async_run_idle<S: BaseScheduler>(k: &Kernel<S>, cpu: usize) -> (r: IdleRound)
    requires
        k.wf(),
        k@.sys.running(cpu),
        k@.sys.state(k@.sys.curr(cpu)) == TaskState::Runable,
    ensures
        !r.yielding.flag,
        r.wait_for_irqs == k@.sys.config.irq,
{
    IdleRound {
        yielding: schedule::async_yield_current(k, cpu),
        wait_for_irqs: k.system.config.irq,
    }
}

/// Spawns a task and schedules on CPU `cpu`, for the task to run to completion;
/// [`switch_entry`](task_switch::switch_entry) follows again and again.
pub fn block_on<S: BaseScheduler>(
    k: &mut Kernel<S>,
    cpu: usize,
    name: String,
    stack_size: usize,
    alloc: Allocation,
) -> (r: (AxTaskRef, Switched))
    requires
        old(k).wf(),
        sched::countable(old(k)@.sys.tasks.len() + 1),
        task::fits(old(k)@.sys.config, alloc),
        processor_ref::can_select(old(k)@, CpuMask::first(old(k)@.processors.len() as usize)),
        schedule::can_schedule(old(k)@, cpu),
    ensures
        final(k).wf(),
        exists|mid: KernelView| #[trigger]
            spawned::<S>(old(k)@, name@, stack_size, alloc, r.0, mid)
                && schedule::scheduled::<S>(mid, cpu, final(k)@, r.1),
{
    let ghost pre = k@;
    let task = spawn_raw(k, name, stack_size, alloc);
    let ghost mid = k@;
    proof {
        lemma_spawned_keeps::<S>(pre, name@, stack_size, alloc, task, mid);
    }
    let work = schedule::schedule(k, cpu);
    let r = (task, work);
    assert(spawned::<S>(pre, name@, stack_size, alloc, r.0, mid));
    assert(schedule::scheduled::<S>(mid, cpu, k@, r.1));
    r
}

/// A new task leaves the others alone.
pub proof fn lemma_spawned_keeps<S: BaseScheduler>(
    pre: KernelView,
    name: Seq<char>,
    stack_size: usize,
    alloc: Allocation,
    task: AxTaskRef,
    post: KernelView,
)
    requires
        pre.wf(),
        pre.sys.tasks.len() <= usize::MAX,
        processor_ref::can_select(pre, CpuMask::first(pre.processors.len() as usize)),
        spawned::<S>(pre, name, stack_size, alloc, task, post),
    ensures
        post.sys.config == pre.sys.config,
        post.sys.current == pre.sys.current,
        post.sys.tasks.len() == pre.sys.tasks.len() + 1,
        forall|t: int|
            0 <= t < pre.sys.tasks.len() ==> (#[trigger] post.sys.tasks[t]) == pre.sys.tasks[t],
        post.processors.len() == pre.processors.len(),
        forall|c: int|
            0 <= c < pre.processors.len() && pre.processors[c] is Some ==> (
            #[trigger] post.processors[c]) is Some,
{
    let t = post.sys.tasks[task as int];
    let cpus = pre.processors.len() as usize;
    let made = pre.with_new_task(t, S::initial(task));
    let (index, mid) = choose|index: usize, mid: KernelView|
        {
            &&& #[trigger] processor::selected(made, CpuMask::first(cpus), index, mid)
            &&& processor::enqueued_on::<S>(mid, index, task, post)
        };
    processor::lemma_selected(made, CpuMask::first(cpus), index, mid);
}

} // verus!
