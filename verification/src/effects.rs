//! What the operations do to the tasks, the ready queues and the CPUs.
//!
//! Each law here speaks of the kernel before and after an operation, and of what the operation hands out,
//! in terms of the tasks themselves: their states, where their scheduling items are, and who runs where.
use crate::api;
use crate::block;
use crate::config::Config;
use crate::cpumask::CpuMask;
use crate::kernel;
use crate::kernel::KernelView;
use crate::order_on;
use crate::processor;
use crate::processor_ref;
use crate::run_queue;
use crate::sched;
use crate::sched::fair;
use crate::sched::fair::Fair;
use crate::sched::fifo::Fifo;
use crate::sched::round_robin::RoundRobin;
use crate::sched::{BaseScheduler, Entry, Ready};
use crate::schedule;
use crate::system;
use crate::system::{AxTaskRef, Slot, Switched, SystemView};
use crate::task;
use crate::task::{Allocation, TaskRequest, TaskStart, TaskState};
use crate::wait_queue;
use vstd::prelude::*;

verus! {

/// The tasks once one of them has been woken.
proof fn lemma_woken_tasks<S: BaseScheduler>(
    pre: KernelView,
    cpu: usize,
    task: AxTaskRef,
    resched: bool,
    post: KernelView,
)
    requires
        pre.sys.valid(task),
        pre.sys.state(task) == TaskState::Blocked || pre.sys.state(task) == TaskState::Blocking,
        block::woken::<S>(pre, cpu, task, resched, post),
    ensures
        post == (KernelView {
            sys: SystemView {
                tasks: post.sys.tasks,
                slots: post.sys.slots,
                run_queue: post.sys.run_queue,
                ..pre.sys
            },
            processors: post.processors,
            rotor: post.rotor,
            ..pre
        }),
        ({
            let blocked = pre.sys.state(task) == TaskState::Blocked;
            let ready = pre.sys.with_state(task, TaskState::Runable);
            post.sys.tasks == if blocked && resched && pre.sys.config.preempt {
                ready.with_pending(pre.sys.curr(cpu), true).tasks
            } else if blocked || pre.has_processor(cpu) {
                ready.tasks
            } else {
                pre.sys.tasks
            }
        }),
{
    if pre.has_processor(cpu) {
        if pre.sys.state(task) == TaskState::Blocked {
            let mid = choose|mid: KernelView|
                {
                    &&& #[trigger] schedule::woken_up::<S>(pre, task, mid)
                    &&& post == if resched && pre.sys.config.preempt {
                        mid.with_sys(mid.sys.with_pending(pre.sys.curr(cpu), true))
                    } else {
                        mid
                    }
                };
            let ready = pre.with_sys(pre.sys.with_state(task, TaskState::Runable));
            let mask = pre.sys.tasks[task as int].cpumask;
            let (index, sel) = choose|index: usize, sel: KernelView|
                {
                    &&& #[trigger] processor::selected(ready, mask, index, sel)
                    &&& processor::enqueued_on::<S>(sel, index, task, mid)
                };
        }
    }
}

/// What waking the task `task` does to the tasks. A blocked task can run again, and only then, and only if
/// asked for, the preemption of the task that the CPU runs becomes pending. No other state changes.
pub proof fn lemma_wake_tasks<S: BaseScheduler>(
    pre: KernelView,
    cpu: usize,
    task: AxTaskRef,
    resched: bool,
    post: KernelView,
)
    requires
        pre.sys.valid(task),
        pre.sys.running(cpu) ==> pre.sys.valid(pre.sys.current[cpu as int]->0),
        block::can_wake(pre, cpu, task, resched),
        block::woken::<S>(pre, cpu, task, resched, post),
    ensures
        post.sys.config == pre.sys.config,
        post.sys.current == pre.sys.current,
        post.sys.idle == pre.sys.idle,
        post.joins == pre.joins,
        post.exited == pre.exited,
        post.gc_waiters == pre.gc_waiters,
        post.sys.tasks.len() == pre.sys.tasks.len(),
        pre.sys.tasks[task as int].state == TaskState::Blocked ==> {
            &&& post.sys.tasks[task as int].state == TaskState::Runable
            &&& resched && pre.sys.config.preempt
                ==> post.sys.tasks[pre.sys.current[cpu as int]->0 as int].inner.preempt_pending
        },
        pre.sys.tasks[task as int].state == TaskState::Blocking && pre.has_processor(cpu)
            ==> post.sys.tasks[task as int].state == TaskState::Runable,
        pre.sys.tasks[task as int].state == TaskState::Exited ==> post == pre,
        forall|t: int|
            #![trigger post.sys.tasks[t]]
            0 <= t < pre.sys.tasks.len() && t != task ==> post.sys.tasks[t].state
                == pre.sys.tasks[t].state,
        forall|t: int|
            #![trigger post.sys.tasks[t]]
            0 <= t < pre.sys.tasks.len() ==> {
                let (was, is) = (pre.sys.tasks[t], post.sys.tasks[t]);
                let asked = resched && pre.sys.config.preempt && pre.sys.tasks[task as int].state
                    == TaskState::Blocked;
                &&& asked && t == pre.sys.current[cpu as int]->0 || is.inner.preempt_pending
                    == was.inner.preempt_pending
                &&& is.inner.exit_code == was.inner.exit_code
                &&& is.inner.is_leader == was.inner.is_leader
                &&& is.cpumask == was.cpumask
                &&& t != task ==> is.inner.wakeup_cnt == was.inner.wakeup_cnt
            },
{
    let state = pre.sys.state(task);
    if state == TaskState::Blocked || state == TaskState::Blocking {
        lemma_woken_tasks::<S>(pre, cpu, task, resched, post);
    }
}

/// A wake-up that comes too early is counted: once more for a task that a CPU runs, and never for one that
/// is blocked, on its way to be blocked, or only waits for a CPU.
pub proof fn lemma_wake_counts<S: BaseScheduler>(
    pre: KernelView,
    cpu: usize,
    task: AxTaskRef,
    resched: bool,
    post: KernelView,
)
    requires
        pre.sys.valid(task),
        pre.sys.running(cpu) ==> pre.sys.valid(pre.sys.current[cpu as int]->0),
        block::can_wake(pre, cpu, task, resched),
        block::woken::<S>(pre, cpu, task, resched, post),
    ensures
        ({
            let cnt = pre.sys.tasks[task as int].inner.wakeup_cnt;
            let state = pre.sys.tasks[task as int].state;
            let runs = if pre.has_processor(cpu) {
                state == TaskState::Runable && exists|c: int|
                    0 <= c < pre.sys.current.len() && #[trigger] pre.sys.current[c] == Some(task)
            } else {
                state == TaskState::Running
            };
            &&& runs && cnt < usize::MAX ==> post.sys.tasks[task as int].inner.wakeup_cnt == cnt + 1
            &&& !runs ==> post.sys.tasks[task as int].inner.wakeup_cnt == cnt
            &&& runs ==> post.sys.slots == pre.sys.slots && post.processors == pre.processors
                && post.sys.tasks[task as int].state == state
        }),
{
}

/// Where a woken task waits. A blocked task that has its scheduling item goes into one ready queue: where
/// CPUs have processors, that of one of the CPUs that the task may run on, and else the shared one. All
/// other items stay where they are; so do all if the task was not blocked.
pub proof fn lemma_wake_queues<S: BaseScheduler>(
    pre: KernelView,
    cpu: usize,
    task: AxTaskRef,
    resched: bool,
    post: KernelView,
)
    requires
        pre.wf(),
        pre.sys.valid(task),
        block::can_wake(pre, cpu, task, resched),
        block::woken::<S>(pre, cpu, task, resched, post),
    ensures
        forall|t: int|
            #![trigger post.sys.slots[t]]
            0 <= t < pre.sys.slots.len() && t != task ==> post.sys.slots[t] == pre.sys.slots[t],
        pre.sys.tasks[task as int].state != TaskState::Blocked ==> {
            &&& post.sys.slots == pre.sys.slots
            &&& post.processors == pre.processors
            &&& post.sys.run_queue == pre.sys.run_queue
        },
        pre.sys.tasks[task as int].state == TaskState::Blocked && pre.sys.slots[task as int] is Held
            ==> if pre.has_processor(cpu) {
            &&& post.sys.slots[task as int] is Processor
            &&& pre.sys.tasks[task as int].cpumask.holds(post.sys.slots[task as int]->Processor_0 as int)
            &&& post.has_processor(post.sys.slots[task as int]->Processor_0)
            &&& sched::listed(
                post.processors[post.sys.slots[task as int]->Processor_0 as int]->0.ready,
                task,
            )
        } else {
            &&& post.sys.slots[task as int] is RunQueue
            &&& sched::listed(post.sys.run_queue, task)
        },
{
    if pre.sys.state(task) == TaskState::Blocked && pre.sys.slots[task as int] is Held {
        let ready = pre.with_sys(pre.sys.with_state(task, TaskState::Runable));
        if pre.has_processor(cpu) {
            let mid = choose|mid: KernelView|
                {
                    &&& #[trigger] schedule::woken_up::<S>(pre, task, mid)
                    &&& post == if resched && pre.sys.config.preempt {
                        mid.with_sys(mid.sys.with_pending(pre.sys.curr(cpu), true))
                    } else {
                        mid
                    }
                };
            lemma_woken_up_queue::<S>(pre, task, mid);
        } else {
            kernel::lemma_sys_changed(pre, ready.sys);
            system::lemma_held_sound(ready.sys.run_queue, ready.sys.slots, task);
            let e = ready.sys.slots[task as int]->Held_0;
            S::adds_inserts(e, ready.sys.run_queue, post.sys.run_queue);
            let x = choose|x: Entry|
                x.id == e.id && sched::akin(e, x) && sched::fits(x) && #[trigger] sched::inserted(
                    ready.sys.run_queue,
                    x,
                    post.sys.run_queue,
                );
            sched::lemma_inserted(ready.sys.run_queue, x, post.sys.run_queue);
        }
    }
}

/// Where a task that is woken up waits: in the ready queue of a CPU that it may run on.
pub proof fn lemma_woken_up_queue<S: BaseScheduler>(
    pre: KernelView,
    task: AxTaskRef,
    post: KernelView,
)
    requires
        pre.wf(),
        pre.sys.valid(task),
        pre.sys.tasks[task as int].state == TaskState::Blocked,
        pre.sys.slots[task as int] is Held,
        processor_ref::can_select(pre, pre.sys.tasks[task as int].cpumask),
        schedule::woken_up::<S>(pre, task, post),
    ensures
        post.sys.tasks[task as int].state == TaskState::Runable,
        post.sys.slots[task as int] is Processor,
        pre.sys.tasks[task as int].cpumask.holds(post.sys.slots[task as int]->Processor_0 as int),
        post.has_processor(post.sys.slots[task as int]->Processor_0),
        sched::listed(
            post.processors[post.sys.slots[task as int]->Processor_0 as int]->0.ready,
            task,
        ),
        forall|t: int|
            #![trigger post.sys.tasks[t]]
            0 <= t < pre.sys.tasks.len() && t != task ==> post.sys.tasks[t] == pre.sys.tasks[t],
        post.sys.current == pre.sys.current,
{
    let ready = pre.with_sys(pre.sys.with_state(task, TaskState::Runable));
    let mask = pre.sys.tasks[task as int].cpumask;
    let (index, mid) = choose|index: usize, mid: KernelView|
        {
            &&& #[trigger] processor::selected(ready, mask, index, mid)
            &&& processor::enqueued_on::<S>(mid, index, task, post)
        };
    kernel::lemma_sys_changed(pre, ready.sys);
    processor::lemma_selected(ready, mask, index, mid);
    assert(mid.processors == ready.processors);
    assert(mid.processors[index as int] is Some);
    lemma_enqueued_listed::<S>(mid, index, task, post);
}

/// A task that is added waits in the ready queue of the processor, and all other tasks and processors are as
/// before.
pub proof fn lemma_enqueued_listed<S: BaseScheduler>(
    pre: KernelView,
    cpu: usize,
    task: AxTaskRef,
    post: KernelView,
)
    requires
        pre.wf(),
        pre.has_processor(cpu),
        pre.sys.valid(task),
        pre.sys.slots[task as int] is Held,
        processor::enqueued_on::<S>(pre, cpu, task, post),
    ensures
        post.wf(),
        post.sys.slots == pre.sys.slots.update(task as int, Slot::Processor(cpu)),
        post.sys.tasks == pre.sys.tasks,
        post.sys.current == pre.sys.current,
        post.has_processor(cpu),
        sched::listed(post.proc(cpu).ready, task),
        post.processors.len() == pre.processors.len(),
        forall|c: int|
            #![trigger post.processors[c]]
            0 <= c < pre.processors.len() && c != cpu ==> post.processors[c] == pre.processors[c],
{
    let e = pre.sys.slots[task as int]->Held_0;
    let ready = post.proc(cpu).ready;
    processor::lemma_ready_queue(pre, cpu, task);
    S::adds_inserts(e, pre.proc(cpu).ready, ready);
    let x = choose|x: Entry|
        x.id == e.id && sched::akin(e, x) && sched::fits(x) && #[trigger] sched::inserted(
            pre.proc(cpu).ready,
            x,
            ready,
        );
    sched::lemma_inserted(pre.proc(cpu).ready, x, ready);
    processor::lemma_into_processor(pre, cpu, task, x, ready);
}

/// A task that is added to the shared run queue waits there, and all other tasks are as before. One that
/// waits in a ready queue already stays there, and nothing changes.
pub proof fn lemma_added<S: BaseScheduler>(pre: SystemView, task: AxTaskRef, post: SystemView)
    requires
        pre.wf(),
        pre.valid(task),
        system::enqueued::<S>(pre, task, post),
    ensures
        pre.slots[task as int] is Held ==> {
            &&& post.slots[task as int] is RunQueue
            &&& sched::listed(post.run_queue, task)
            &&& post.run_queue.list.len() == pre.run_queue.list.len() + 1
        },
        !(pre.slots[task as int] is Held) ==> post == pre,
        forall|t: int|
            #![trigger post.slots[t]]
            0 <= t < pre.slots.len() && t != task ==> post.slots[t] == pre.slots[t],
        post.tasks == pre.tasks,
        post.current == pre.current,
{
    if pre.slots[task as int] is Held {
        let e = pre.slots[task as int]->Held_0;
        system::lemma_held_sound(pre.run_queue, pre.slots, task);
        S::adds_inserts(e, pre.run_queue, post.run_queue);
        let x = choose|x: Entry|
            x.id == e.id && sched::akin(e, x) && sched::fits(x) && #[trigger] sched::inserted(
                pre.run_queue,
                x,
                post.run_queue,
            );
        sched::lemma_inserted(pre.run_queue, x, post.run_queue);
    }
}

/// A task is preempted at a check exactly if its preemption is pending and not disabled, unless it has
/// exited or is about to block.
pub proof fn lemma_preempted_when(v: SystemView, cpu: usize)
    ensures
        ({
            let t = v.tasks[v.current[cpu as int]->0 as int];
            api::to_be_preempted(v, cpu) <==> {
                &&& t.inner.preempt_pending
                &&& t.inner.preempt_disable_count == 0
                &&& t.state is Runable || t.state is Running || t.state is Blocked
            }
        }),
{
}

/// A task that wakes another and asks for it is preempted at the next check, unless preemption is disabled
/// for it; one that does not ask, and for which no preemption was pending, is not.
pub proof fn lemma_waker_is_preempted<S: BaseScheduler>(
    pre: KernelView,
    cpu: usize,
    task: AxTaskRef,
    resched: bool,
    post: KernelView,
)
    requires
        pre.sys.valid(task),
        pre.sys.running(cpu),
        pre.sys.valid(pre.sys.current[cpu as int]->0),
        pre.sys.tasks[task as int].state == TaskState::Blocked,
        pre.sys.tasks[pre.sys.current[cpu as int]->0 as int].state == TaskState::Runable,
        block::can_wake(pre, cpu, task, resched),
        block::woken::<S>(pre, cpu, task, resched, post),
    ensures
        ({
            let t = pre.sys.tasks[pre.sys.current[cpu as int]->0 as int].inner;
            &&& resched && pre.sys.config.preempt && t.preempt_disable_count == 0
                ==> api::to_be_preempted(post.sys, cpu)
            &&& !resched && !t.preempt_pending ==> !api::to_be_preempted(post.sys, cpu)
            &&& t.preempt_disable_count > 0 ==> !api::to_be_preempted(post.sys, cpu)
        }),
{
    lemma_wake_tasks::<S>(pre, cpu, task, resched, post);
}

/// Waking the tasks of a queue, and what becomes of the task `t`. If it is blocked and in the queue, it can
/// run again; if it is not in the queue, its state stays. If asked for, and if a task of the queue was
/// blocked, the preemption of the task that the CPU runs becomes pending; of any other it stays as it was.
pub proof fn lemma_wake_all<S: BaseScheduler>(
    pre: KernelView,
    cpu: usize,
    q: Seq<AxTaskRef>,
    resched: bool,
    post: KernelView,
    t: AxTaskRef,
)
    requires
        pre.wf(),
        pre.sys.valid(t),
        pre.sys.all_valid(q),
        wait_queue::can_wake_all(pre, cpu, q, resched),
        wait_queue::all_woken::<S>(pre, cpu, q, resched, post),
    ensures
        post.sys.config == pre.sys.config,
        post.sys.current == pre.sys.current,
        post.joins == pre.joins,
        post.exited == pre.exited,
        post.gc_waiters == pre.gc_waiters,
        post.sys.tasks.len() == pre.sys.tasks.len(),
        ({
            let (was, is) = (pre.sys.tasks[t as int], post.sys.tasks[t as int]);
            let asked = resched && pre.sys.config.preempt && t == pre.sys.current[cpu as int]->0
                && exists|i: int|
                0 <= i < q.len() && pre.sys.tasks[#[trigger] q[i] as int].state
                    == TaskState::Blocked;
            &&& was.state == TaskState::Blocked && q.contains(t) ==> is.state == TaskState::Runable
            &&& is.state == was.state || is.state == TaskState::Runable && q.contains(t) && (was.state
                == TaskState::Blocked || was.state == TaskState::Blocking)
            &&& is.inner.preempt_pending == (asked || was.inner.preempt_pending)
            &&& is.inner.exit_code == was.inner.exit_code
            &&& is.inner.is_leader == was.inner.is_leader
        }),
    decreases q.len(),
{
    if q.len() > 0 {
        let mid = choose|mid: KernelView|
            wait_queue::all_woken::<S>(pre, cpu, q.drop_last(), resched, mid) && #[trigger] block::woken::<
                S,
            >(mid, cpu, q.last(), resched, post);
        let less = q.drop_last();
        let task = q.last();
        assert(task == q[q.len() - 1]);
        assert(pre.sys.valid(task));
        assert forall|i: int| 0 <= i < less.len() implies pre.sys.valid(#[trigger] less[i])
            && block::can_wake(pre, cpu, less[i], resched) by {
            assert(less[i] == q[i]);
        }
        lemma_wake_all::<S>(pre, cpu, less, resched, mid, t);
        lemma_wake_all::<S>(pre, cpu, less, resched, mid, task);
        lemma_all_woken_keeps::<S>(pre, cpu, less, resched, mid);
        lemma_wake_last::<S>(pre, mid, cpu, task, resched, post, t);
        assert(less.push(task) =~= q);
        assert(q.contains(t) <==> less.contains(t) || t == task) by {
            if less.contains(t) {
                let i = choose|i: int| 0 <= i < less.len() && less[i] == t;
                assert(q[i] == t);
            }
            if q.contains(t) && t != task {
                let i = choose|i: int| 0 <= i < q.len() && q[i] == t;
                assert(less[i] == t);
            }
        }
        let before = exists|i: int|
            0 <= i < less.len() && pre.sys.tasks[#[trigger] less[i] as int].state
                == TaskState::Blocked;
        let now = exists|i: int|
            0 <= i < q.len() && pre.sys.tasks[#[trigger] q[i] as int].state == TaskState::Blocked;
        assert(now <==> before || pre.sys.tasks[task as int].state == TaskState::Blocked) by {
            if before {
                let i = choose|i: int|
                    0 <= i < less.len() && pre.sys.tasks[#[trigger] less[i] as int].state
                        == TaskState::Blocked;
                assert(q[i] == less[i]);
            }
            if now && pre.sys.tasks[task as int].state != TaskState::Blocked {
                let i = choose|i: int|
                    0 <= i < q.len() && pre.sys.tasks[#[trigger] q[i] as int].state
                        == TaskState::Blocked;
                assert(less[i] == q[i]);
            }
        }
        if less.contains(task) && pre.sys.tasks[task as int].state == TaskState::Blocked {
            let i = choose|i: int| 0 <= i < less.len() && less[i] == task;
            assert(pre.sys.tasks[less[i] as int].state == TaskState::Blocked);
        }
    }
}

/// What waking one more task does to the task `t`.
proof fn lemma_wake_last<S: BaseScheduler>(
    pre: KernelView,
    mid: KernelView,
    cpu: usize,
    task: AxTaskRef,
    resched: bool,
    post: KernelView,
    t: AxTaskRef,
)
    requires
        pre.wf(),
        mid.wf(),
        pre.sys.valid(t),
        pre.sys.valid(task),
        block::waking_keeps(pre, mid),
        block::can_wake(pre, cpu, task, resched),
        block::woken::<S>(mid, cpu, task, resched, post),
    ensures
        post.sys.config == mid.sys.config,
        post.sys.current == mid.sys.current,
        post.joins == mid.joins,
        post.exited == mid.exited,
        post.gc_waiters == mid.gc_waiters,
        post.sys.tasks.len() == mid.sys.tasks.len(),
        ({
            let (was, is) = (mid.sys.tasks[t as int], post.sys.tasks[t as int]);
            let blocked = mid.sys.tasks[task as int].state == TaskState::Blocked;
            let asked = resched && mid.sys.config.preempt && t == mid.sys.current[cpu as int]->0
                && blocked;
            &&& was.state == TaskState::Blocked && t == task ==> is.state == TaskState::Runable
            &&& is.state == was.state || is.state == TaskState::Runable && t == task && (was.state
                == TaskState::Blocked || was.state == TaskState::Blocking)
            &&& is.inner.preempt_pending == (asked || was.inner.preempt_pending)
            &&& is.inner.exit_code == was.inner.exit_code
            &&& is.inner.is_leader == was.inner.is_leader
        }),
{
    block::lemma_can_wake_kept(pre, mid, cpu, task, resched);
    if mid.sys.running(cpu) {
        assert(mid.sys.current[cpu as int] is Some);
    }
    lemma_wake_tasks::<S>(mid, cpu, task, resched, post);
    let is = post.sys.tasks[t as int];
}

/// Waking the tasks of a queue keeps what waking keeps.
pub proof fn lemma_all_woken_keeps<S: BaseScheduler>(
    pre: KernelView,
    cpu: usize,
    q: Seq<AxTaskRef>,
    resched: bool,
    post: KernelView,
)
    requires
        pre.wf(),
        pre.sys.all_valid(q),
        wait_queue::can_wake_all(pre, cpu, q, resched),
        wait_queue::all_woken::<S>(pre, cpu, q, resched, post),
    ensures
        block::waking_keeps(pre, post),
        post.wf(),
    decreases q.len(),
{
    if q.len() == 0 {
        block::lemma_waking_none(pre);
    } else {
        let mid = choose|mid: KernelView|
            wait_queue::all_woken::<S>(pre, cpu, q.drop_last(), resched, mid) && #[trigger] block::woken::<
                S,
            >(mid, cpu, q.last(), resched, post);
        let less = q.drop_last();
        assert forall|i: int| 0 <= i < less.len() implies pre.sys.valid(#[trigger] less[i])
            && block::can_wake(pre, cpu, less[i], resched) by {
            assert(less[i] == q[i]);
        }
        lemma_all_woken_keeps::<S>(pre, cpu, less, resched, mid);
        let task = q.last();
        assert(task == q[q.len() - 1]);
        assert(pre.sys.valid(task));
        block::lemma_can_wake_kept(pre, mid, cpu, task, resched);
        block::lemma_woken::<S>(mid, cpu, task, resched, post);
        block::lemma_waking_keeps(pre, mid, post);
        lemma_woken_wf::<S>(mid, cpu, task, resched, post);
    }
}

/// Waking a task keeps the kernel sound.
pub proof fn lemma_woken_wf<S: BaseScheduler>(
    pre: KernelView,
    cpu: usize,
    task: AxTaskRef,
    resched: bool,
    post: KernelView,
)
    requires
        pre.wf(),
        pre.sys.valid(task),
        block::can_wake(pre, cpu, task, resched),
        block::woken::<S>(pre, cpu, task, resched, post),
    ensures
        post.wf(),
{
    let ready = pre.with_sys(pre.sys.with_state(task, TaskState::Runable));
    kernel::lemma_sys_changed(pre, ready.sys);
    if pre.sys.running(cpu) {
        assert(pre.sys.current[cpu as int] is Some);
    }
    if pre.has_processor(cpu) {
        match pre.sys.state(task) {
            TaskState::Blocked => {
                let mid = choose|mid: KernelView|
                    {
                        &&& #[trigger] schedule::woken_up::<S>(pre, task, mid)
                        &&& post == if resched && pre.sys.config.preempt {
                            mid.with_sys(mid.sys.with_pending(pre.sys.curr(cpu), true))
                        } else {
                            mid
                        }
                    };
                let mask = pre.sys.tasks[task as int].cpumask;
                let (index, sel) = choose|index: usize, sel: KernelView|
                    {
                        &&& #[trigger] processor::selected(ready, mask, index, sel)
                        &&& processor::enqueued_on::<S>(sel, index, task, mid)
                    };
                processor::lemma_selected(ready, mask, index, sel);
                assert(sel.wf());
                assert(sel.processors[index as int] is Some);
                if sel.sys.slots[task as int] is Held {
                    lemma_enqueued_listed::<S>(sel, index, task, mid);
                }
                assert(mid.wf());
                if resched && pre.sys.config.preempt {
                    kernel::lemma_sys_changed(mid, post.sys);
                }
            },
            TaskState::Runable => {
                if pre.sys.is_current(task) {
                    kernel::lemma_sys_changed(pre, post.sys);
                }
            },
            _ => {},
        }
    } else {
        match pre.sys.state(task) {
            TaskState::Blocked => {
                let mid = system::queued_as(ready.sys, task, post.sys.run_queue);
                assert(system::enqueued::<S>(ready.sys, task, mid));
                crate::order::lemma_enqueued_wf::<S>(ready.sys, task, mid);
                lemma_enqueued_frame::<S>(ready.sys, task, mid);
                kernel::lemma_sys_changed(ready, mid);
                if resched && pre.sys.config.preempt {
                    kernel::lemma_sys_changed(ready.with_sys(mid), post.sys);
                }
                assert(pre.with_sys(post.sys) == ready.with_sys(mid).with_sys(post.sys));
            },
            TaskState::Running => {
                kernel::lemma_sys_changed(pre, post.sys);
            },
            _ => {},
        }
    }
}

/// Adding a task to the run queue leaves the places of the others.
proof fn lemma_enqueued_frame<S: BaseScheduler>(
    pre: SystemView,
    task: AxTaskRef,
    post: SystemView,
)
    requires
        pre.wf(),
        pre.valid(task),
        system::enqueued::<S>(pre, task, post),
    ensures
        pre.same_frame(post),
{
    match pre.slots[task as int] {
        Slot::Held(e) => {
            system::lemma_held_sound(pre.run_queue, pre.slots, task);
            S::adds_inserts(e, pre.run_queue, post.run_queue);
        },
        _ => {},
    }
}

/// What a spawned task is. It is new, belongs to the kernel, has the name, the stack and the thread-local
/// storage that it was given, may run on all CPUs, starts with its function, and waits in the ready queue of
/// a CPU. Nobody waits for its exit yet, and all other tasks are as before.
pub proof fn lemma_spawned_task<S: BaseScheduler>(
    pre: KernelView,
    name: Seq<char>,
    stack_size: usize,
    alloc: Allocation,
    task: AxTaskRef,
    post: KernelView,
)
    requires
        pre.wf(),
        sched::countable(pre.sys.tasks.len() + 1),
        task::fits(pre.sys.config, alloc),
        processor_ref::can_select(pre, CpuMask::first(pre.processors.len() as usize)),
        api::spawned::<S>(pre, name, stack_size, alloc, task, post),
    ensures
        task == pre.sys.tasks.len(),
        post.sys.tasks.len() == pre.sys.tasks.len() + 1,
        task::first_step(post.sys.config, post.sys.tasks[task as int].inner) == TaskStart::Run,
        ({
            let t = post.sys.tasks[task as int];
            let config = pre.sys.config;
            &&& config.monolithic ==> t.inner.process_id == config.kernel_process_id
            &&& t.inner.page_table_token == 0
            &&& t.inner.has_entry && !t.inner.is_init && !t.inner.is_leader && !t.inner.is_thread
            &&& t.inner.name@ == name
            &&& t.inner.is_idle <==> name == "idle"@
            &&& t.inner.stack_size == stack_size
            &&& t.inner.kernel_stack_top == Some(alloc.stack_top)
            &&& t.inner.context is Some
            &&& t.inner.context->0.stack_pointer == if config.monolithic {
                alloc.stack_top - config.trap_frame_size
            } else {
                alloc.stack_top as int
            }
            &&& config.tls ==> t.inner.tls_ptr == alloc.tls_ptr && t.inner.context->0.tls
                == alloc.tls_ptr
            &&& t.inner.exit_code == 0
            &&& t.inner.wakeup_cnt == 0
            &&& t.inner.preempt_disable_count == 0 && !t.inner.preempt_pending
            &&& config.monolithic ==> t.inner.time_origin == alloc.now
            &&& t.state == TaskState::Runable && !t.on_cpu && !t.state_locked
        }),
        forall|c: int|
            #![trigger post.sys.tasks[task as int].cpumask.holds(c)]
            #![trigger post.sys.tasks[task as int].inner.cpu_set.holds(c)]
            0 <= c < pre.processors.len() ==> post.sys.tasks[task as int].cpumask.holds(c)
                && post.sys.tasks[task as int].inner.cpu_set.holds(c),
        post.sys.slots[task as int] is Processor,
        post.has_processor(post.sys.slots[task as int]->Processor_0),
        sched::listed(
            post.processors[post.sys.slots[task as int]->Processor_0 as int]->0.ready,
            task,
        ),
        post.joins == pre.joins.insert(task, Seq::<AxTaskRef>::empty()),
        post.exited == pre.exited,
        post.sys.current == pre.sys.current,
        post.sys.config == pre.sys.config,
        forall|t: int|
            #![trigger post.sys.tasks[t]]
            0 <= t < pre.sys.tasks.len() ==> post.sys.tasks[t] == pre.sys.tasks[t],
        forall|t: int|
            #![trigger post.sys.slots[t]]
            0 <= t < pre.sys.tasks.len() ==> post.sys.slots[t] == pre.sys.slots[t],
        post.wf(),
{
    let t = post.sys.tasks[task as int];
    let cpus = pre.processors.len() as usize;
    let mask = CpuMask::first(cpus);
    let made = pre.with_new_task(t, S::initial(task));
    S::initial_id(task);
    system::lemma_held_sound(pre.sys.run_queue, pre.sys.slots, 0);
    kernel::lemma_new_task(pre, t, S::initial(task));
    let (index, mid) = choose|index: usize, mid: KernelView|
        {
            &&& #[trigger] processor::selected(made, mask, index, mid)
            &&& processor::enqueued_on::<S>(mid, index, task, post)
        };
    processor::lemma_selected(made, mask, index, mid);
    assert(pre.processors[index as int] is Some);
    assert(mid == (KernelView { rotor: mid.rotor, ..made }));
    assert(mid.wf());
    lemma_enqueued_listed::<S>(mid, index, task, post);
    assert forall|c: int| 0 <= c < pre.processors.len() implies #[trigger] mask.holds(c) by {
        crate::cpumask::lemma_first(cpus, c);
    }
}

/// What `block_on` leaves of the task that it has made: it still starts with its function.
pub proof fn lemma_block_on_task<S: BaseScheduler>(
    pre: KernelView,
    cpu: usize,
    name: Seq<char>,
    stack_size: usize,
    alloc: Allocation,
    task: AxTaskRef,
    post: KernelView,
    work: Switched,
)
    requires
        pre.wf(),
        sched::countable(pre.sys.tasks.len() + 1),
        task::fits(pre.sys.config, alloc),
        processor_ref::can_select(pre, CpuMask::first(pre.processors.len() as usize)),
        schedule::can_schedule(pre, cpu),
        exists|mid: KernelView| #[trigger]
            api::spawned::<S>(pre, name, stack_size, alloc, task, mid)
                && schedule::scheduled::<S>(mid, cpu, post, work),
    ensures
        task == pre.sys.tasks.len(),
        ({
            let t = post.sys.tasks[task as int].inner;
            &&& task::first_step(pre.sys.config, t) == TaskStart::Run
            &&& pre.sys.config.monolithic ==> t.process_id == pre.sys.config.kernel_process_id
            &&& t.name@ == name
            &&& t.stack_size == stack_size
            &&& t.kernel_stack_top == Some(alloc.stack_top)
        }),
{
    let mid = choose|mid: KernelView| #[trigger]
        api::spawned::<S>(pre, name, stack_size, alloc, task, mid)
            && schedule::scheduled::<S>(mid, cpu, post, work);
    lemma_spawned_task::<S>(pre, name, stack_size, alloc, task, mid);
    assert(pre.sys.current[cpu as int] is Some);
    assert(processor_ref::runs_on(mid, cpu));
    order_on::lemma_scheduled_frame::<S>(mid, cpu, post, work);
    assert(order_on::kept_by_scheduling(
        mid.sys.tasks[task as int],
        post.sys.tasks[task as int],
    ));
}

/// How a new task starts, by what it was made from: one of another process with the program of its process,
/// and one of the kernel, or where there are no processes, with its function. One that a CPU was running
/// when it was made has nothing to start with.
pub proof fn lemma_new_task_starts(
    config: Config,
    cpus: usize,
    request: TaskRequest,
    alloc: Allocation,
    name: String,
    tls_ptr: usize,
)
    requires
        task::fits(config, alloc),
    ensures
        ({
            let t = task::fresh_task(
                config,
                cpus,
                request.name,
                request.stack_size,
                request.process_id,
                request.page_table_token,
                alloc,
            );
            &&& config.monolithic && request.process_id != config.kernel_process_id
                ==> task::first_step(config, t.inner) == TaskStart::IntoUser(alloc.stack_top)
            &&& !config.monolithic || request.process_id == config.kernel_process_id
                ==> task::first_step(config, t.inner) == TaskStart::Run
            &&& config.monolithic ==> t.inner.process_id == request.process_id
                && t.inner.page_table_token == request.page_table_token && t.inner.time_origin
                == alloc.now
            &&& t.inner.name == request.name
            &&& t.inner.is_idle <==> request.name@ == "idle"@
            &&& t.inner.stack_size == request.stack_size
            &&& t.inner.kernel_stack_top == Some(alloc.stack_top)
            &&& t.inner.context is Some
            &&& t.inner.context->0.stack_pointer + (if config.monolithic {
                config.trap_frame_size as int
            } else {
                0
            }) == alloc.stack_top
            &&& config.tls ==> t.inner.tls_ptr == alloc.tls_ptr && t.inner.context->0.tls
                == alloc.tls_ptr
            &&& !t.inner.is_init && !t.inner.is_leader && !t.inner.is_thread
            &&& t.inner.exit_code == 0 && t.inner.wakeup_cnt == 0
            &&& t.inner.preempt_disable_count == 0 && !t.inner.preempt_pending
            &&& t.state == TaskState::Runable && !t.on_cpu && !t.state_locked
        }),
        ({
            let t = task::fresh_init_task(config, cpus, name, tls_ptr);
            &&& task::first_step(config, t.inner) == TaskStart::Nothing
            &&& t.inner.is_init && !t.inner.is_leader && !t.inner.is_thread
            &&& t.inner.name == name
            &&& t.inner.is_idle <==> name@ == "idle"@
            &&& t.inner.context is None && t.inner.kernel_stack_top is None
            &&& config.tls ==> t.inner.tls_ptr == tls_ptr
            &&& t.inner.exit_code == 0 && t.inner.wakeup_cnt == 0
            &&& t.inner.preempt_disable_count == 0 && !t.inner.preempt_pending
            &&& t.state == TaskState::Runable && t.on_cpu && !t.state_locked
        }),
{
}

/// If a priority is accepted, the scheduling item of the running task is the one that the policy gives for
/// it; if not, it stays. Nothing else changes.
pub proof fn lemma_priority_set<S: BaseScheduler>(
    pre: SystemView,
    cpu: usize,
    prio: isize,
    post: SystemView,
)
    requires
        pre.wf(),
        run_queue::holds_item(pre, cpu),
        post == run_queue::reprioritised::<S>(pre, cpu, prio),
    ensures
        ({
            let curr = pre.current[cpu as int]->0 as int;
            &&& S::accepts(prio) ==> post.slots[curr] is Held && post.slots[curr]->Held_0
                == S::reweighed(pre.slots[curr]->Held_0, prio)
            &&& !S::accepts(prio) ==> post.slots[curr] == pre.slots[curr]
            &&& forall|t: int|
                #![trigger post.slots[t]]
                0 <= t < pre.slots.len() && t != curr ==> post.slots[t] == pre.slots[t]
        }),
        post.slots.len() == pre.slots.len(),
        post.tasks == pre.tasks,
        post.current == pre.current,
        post.idle == pre.idle,
        post.run_queue == pre.run_queue,
        post.config == pre.config,
{
    assert(pre.current[cpu as int] is Some);
}

/// Under fair scheduling the nice values from -20 to 19 are accepted, and such a value becomes the nice value
/// of the running task. What the task has run so far counts as before, and each tick from then on counts by
/// the new value.
pub proof fn lemma_fair_priority_set(
    pre: SystemView,
    cpu: usize,
    prio: isize,
    post: SystemView,
    ticks: nat,
)
    requires
        pre.wf(),
        run_queue::holds_item(pre, cpu),
        post == run_queue::reprioritised::<Fair>(pre, cpu, prio),
    ensures
        ({
            let curr = pre.current[cpu as int]->0 as int;
            let (was, is) = (pre.slots[curr]->Held_0, post.slots[curr]->Held_0);
            &&& Fair::accepts(prio) <==> -20 <= prio <= 19
            &&& -20 <= prio <= 19 ==> {
                &&& is.nice == prio
                &&& is.id == was.id
                &&& fair::run_time(is) == fair::run_time(was)
                &&& fair::run_time(Entry { ran: is.ran + ticks, ..is }) == fair::run_time(was)
                    + fair::charge(ticks as int, prio as int)
            }
            &&& !(-20 <= prio <= 19) ==> is == was
        }),
{
    lemma_priority_set::<Fair>(pre, cpu, prio, post);
    if Fair::accepts(prio) {
        fair::lemma_reweighed(pre.slots[pre.current[cpu as int]->0 as int]->Held_0, prio);
    }
}

/// First come first served and round robin know no priorities: none is accepted, and nothing changes.
pub proof fn lemma_no_priorities(pre: SystemView, cpu: usize, prio: isize)
    ensures
        !Fifo::accepts(prio),
        !RoundRobin::accepts(prio),
        run_queue::reprioritised::<Fifo>(pre, cpu, prio) == pre,
        run_queue::reprioritised::<RoundRobin>(pre, cpu, prio) == pre,
{
}

/// What a timer tick does. It is charged to the running task, unless that is an idle task; all other
/// scheduling items, the ready queues, and the states of all tasks stay, and only the preemption of the
/// running task can become pending, and only where tasks can be preempted.
pub proof fn lemma_tick<S: BaseScheduler>(
    pre: SystemView,
    cpu: usize,
    ready: Ready,
    post: SystemView,
)
    requires
        pre.wf(),
        run_queue::can_tick::<S>(pre, cpu),
        run_queue::ticked::<S>(pre, cpu, ready, post),
    ensures
        ({
            let curr = pre.current[cpu as int]->0 as int;
            &&& pre.tasks[curr].inner.is_idle ==> post == pre
            &&& !pre.tasks[curr].inner.is_idle ==> post.slots[curr] is Held
                && post.slots[curr]->Held_0 == S::ticked(pre.slots[curr]->Held_0)
            &&& forall|t: int|
                #![trigger post.slots[t]]
                0 <= t < pre.slots.len() && t != curr ==> post.slots[t] == pre.slots[t]
            &&& forall|t: int|
                #![trigger post.tasks[t]]
                0 <= t < pre.tasks.len() && t != curr ==> post.tasks[t] == pre.tasks[t]
            &&& !pre.config.preempt ==> post.tasks == pre.tasks
            &&& pre.tasks[curr].inner.preempt_pending ==> post.tasks[curr].inner.preempt_pending
            &&& post.tasks[curr].state == pre.tasks[curr].state
            &&& post.tasks[curr].inner.preempt_disable_count
                == pre.tasks[curr].inner.preempt_disable_count
        }),
        post.run_queue == pre.run_queue,
        post.current == pre.current,
        post.idle == pre.idle,
        post.config == pre.config,
        post.tasks.len() == pre.tasks.len(),
{
    assert(pre.current[cpu as int] is Some);
    let curr = pre.curr(cpu);
    if !pre.inner(curr).is_idle {
        let (e, due) = choose|e: Entry, due: bool|
            {
                &&& #[trigger] S::ticks(pre.slots[curr as int]->Held_0, ready, e, due)
                &&& post == if due && pre.config.preempt {
                    pre.with_slot(curr, Slot::Held(e)).with_pending(curr, true)
                } else {
                    pre.with_slot(curr, Slot::Held(e))
                }
            };
        S::ticks_keeps(pre.slots[curr as int]->Held_0, ready, e, due);
    }
}

/// When a tick asks for the preemption of the running task. First come first served never does. Round
/// robin does when the tick is the last of the time slice. Fair scheduling does when somebody waits and the
/// task has run for longer than the next to come would start from.
pub proof fn lemma_tick_preempts(pre: SystemView, cpu: usize, ready: Ready, post: SystemView)
    requires
        pre.wf(),
        run_queue::holds_item(pre, cpu),
        !pre.tasks[pre.current[cpu as int]->0 as int].inner.is_idle,
        pre.config.preempt,
        !pre.tasks[pre.current[cpu as int]->0 as int].inner.preempt_pending,
    ensures
        ({
            let curr = pre.current[cpu as int]->0 as int;
            let e = pre.slots[curr]->Held_0;
            let pending = post.tasks[curr].inner.preempt_pending;
            let is = post.slots[curr]->Held_0;
            &&& run_queue::ticked::<Fifo>(pre, cpu, ready, post) ==> !pending && is == e
            &&& run_queue::ticked::<RoundRobin>(pre, cpu, ready, post) ==> {
                &&& pending <==> e.budget <= 1
                &&& e.budget > isize::MIN ==> is.budget == e.budget - 1
            }
            &&& run_queue::ticked::<Fair>(pre, cpu, ready, post) ==> {
                &&& pending <==> ready.list.len() > 0 && (ready.floor is None || fair::run_time(is)
                    > ready.floor->0)
                &&& fair::run_time(is) == e.base + fair::charge(e.ran + 1, e.nice)
                &&& is.nice == e.nice
            }
        }),
{
    assert(pre.current[cpu as int] is Some);
}

} // verus!
