//! How tasks wait for each other, and how they end.
//!
//! The laws here speak of the kernel before and after an operation in terms of the tasks themselves: who is
//! blocked, who waits for whom, who has exited, and what is answered.
use crate::api;
use crate::api::Sleep;
use crate::block;
use crate::config::TimeValue;
use crate::effects;
use crate::exit;
use crate::exit::Exit;
use crate::kernel;
use crate::kernel::KernelView;
use crate::order_on;
use crate::processor;
use crate::processor_ref;
use crate::run_queue;
use crate::sched::{BaseScheduler, RemovableScheduler};
use crate::schedule;
use crate::switching;
use crate::system::{AxTaskRef, Switched};
use crate::task::TaskState;
use crate::wait_queue;
use crate::wait_queue::Waiting;
use vstd::prelude::*;

verus! {

/// A CPU that schedules while its task wants to block leaves the task `Blocked`, with its scheduling item.
pub proof fn lemma_schedule_blocks<S: BaseScheduler>(
    pre: KernelView,
    cpu: usize,
    post: KernelView,
    work: Switched,
)
    requires
        pre.wf(),
        processor_ref::runs_on(pre, cpu),
        pre.sys.tasks[pre.sys.current[cpu as int]->0 as int].state == TaskState::Blocking,
        schedule::scheduled::<S>(pre, cpu, post, work),
    ensures
        post.sys.tasks[pre.sys.current[cpu as int]->0 as int].state == TaskState::Blocked,
{
    assert(pre.sys.current[cpu as int] is Some);
    let prev = pre.sys.curr(cpu);
    let first = processor::next_on(pre, cpu);
    let sel = processor::picked_on(pre, cpu);
    processor::lemma_picked_on(pre, cpu);
    let (mid, next) = choose|mid: KernelView, next: AxTaskRef|
        {
            &&& #[trigger] schedule::settled::<S>(sel, cpu, first, mid, next)
            &&& post == schedule::moved(mid, cpu, prev, next)
            &&& work == schedule::move_work(mid.sys, prev, next)
        };
    assert(sel.sys.tasks == pre.sys.tasks);
    assert(pre.processors[cpu as int] is Some);
    order_on::lemma_settled_frame::<S>(sel, cpu, first, mid, next);
}

/// What blocking does. A task that has been woken since it last waited goes on, and its wake-ups are used
/// up; nothing else changes. Any other task of a processor is `Blocked`.
pub proof fn lemma_block<S: BaseScheduler>(
    pre: KernelView,
    cpu: usize,
    post: KernelView,
    work: Switched,
)
    requires
        pre.wf(),
        block::can_block(pre, cpu),
        block::blocked::<S>(pre, cpu, post, work),
    ensures
        ({
            let curr = pre.sys.current[cpu as int]->0 as int;
            let woken = pre.sys.tasks[curr].inner.wakeup_cnt > 0;
            &&& woken ==> {
                &&& work is Stay
                &&& post.sys.tasks[curr].inner.wakeup_cnt == 0
                &&& post.sys.tasks[curr].state == pre.sys.tasks[curr].state
                &&& post.sys.current == pre.sys.current
                &&& post.sys.slots == pre.sys.slots
                &&& post.processors == pre.processors
                &&& post.sys.run_queue == pre.sys.run_queue
                &&& forall|t: int|
                    #![trigger post.sys.tasks[t]]
                    0 <= t < pre.sys.tasks.len() && t != curr ==> post.sys.tasks[t]
                        == pre.sys.tasks[t]
            }
            &&& !woken && pre.has_processor(cpu) ==> post.sys.tasks[curr].state
                == TaskState::Blocked
            &&& !woken && !pre.has_processor(cpu) ==> post.sys.tasks[curr].state
                == TaskState::Blocked || post.sys.current[cpu as int] == Some(curr as usize)
        }),
        post.joins == pre.joins,
        post.exited == pre.exited,
        post.gc_waiters == pre.gc_waiters,
{
    assert(pre.sys.current[cpu as int] is Some);
    let curr = pre.sys.curr(cpu);
    if pre.sys.inner(curr).wakeup_cnt == 0 {
        if pre.has_processor(cpu) {
            let blocking = pre.with_sys(pre.sys.with_state(curr, TaskState::Blocking));
            kernel::lemma_sys_changed(pre, blocking.sys);
            lemma_schedule_blocks::<S>(blocking, cpu, post, work);
            switching::lemma_schedule_leaves::<S>(blocking, cpu, post, work);
        } else {
            let blocked = pre.with_sys(pre.sys.with_state(curr, TaskState::Blocked));
            kernel::lemma_sys_changed(pre, blocked.sys);
            switching::lemma_resched_switches::<S>(blocked.sys, cpu, false, post.sys, work);
            assert(post.sys.current[cpu as int] is Some);
        }
    }
}

/// A task that waits is blocked, whatever wake-ups came before: only those that come from then on count.
pub proof fn lemma_wait<S: BaseScheduler>(
    pre: KernelView,
    cpu: usize,
    post: KernelView,
    work: Switched,
)
    requires
        pre.wf(),
        pre.has_processor(cpu),
        wait_queue::can_wait(pre, cpu, false),
        block::blocked::<S>(wait_queue::waiting(pre, cpu), cpu, post, work),
    ensures
        post.sys.tasks[pre.sys.current[cpu as int]->0 as int].state == TaskState::Blocked,
        post.joins == pre.joins,
        post.exited == pre.exited,
{
    assert(pre.sys.current[cpu as int] is Some);
    let v = wait_queue::waiting(pre, cpu);
    kernel::lemma_sys_changed(pre, v.sys);
    lemma_block::<S>(v, cpu, post, work);
}

/// What sleeping does. Without interrupts the task waits busily and nothing changes. A coroutine is about to
/// block and is to be awaited. Any other task is blocked until its alarm, and is left.
pub proof fn lemma_sleep<S: BaseScheduler>(
    pre: KernelView,
    cpu: usize,
    deadline: TimeValue,
    post: KernelView,
    r: Sleep,
)
    requires
        pre.wf(),
        api::can_sleep(pre, cpu),
        api::asleep::<S>(pre, cpu, deadline, post, r),
    ensures
        !pre.sys.config.irq ==> post == pre && r == Sleep::BusyWait(deadline),
        pre.sys.config.irq && pre.sys.config.coroutine ==> {
            let curr = pre.sys.current[cpu as int]->0;
            &&& r is Await
            &&& r->Await_0.alarm.task == curr
            &&& r->Await_0.alarm.deadline == deadline
            &&& !r->Await_0.flag
            &&& post.sys.tasks[curr as int].state == TaskState::Blocking
            &&& post.sys.current == pre.sys.current
            &&& forall|t: int|
                #![trigger post.sys.tasks[t]]
                0 <= t < pre.sys.tasks.len() && t != curr ==> post.sys.tasks[t] == pre.sys.tasks[t]
        },
        pre.sys.config.irq && !pre.sys.config.coroutine ==> {
            let curr = pre.sys.current[cpu as int]->0;
            &&& r is Alarm
            &&& r->Alarm_0.task == curr
            &&& r->Alarm_0.deadline == deadline
            &&& post.sys.tasks[curr as int].state == TaskState::Blocked
        },
{
    if pre.sys.config.irq {
        assert(pre.sys.current[cpu as int] is Some);
        if !pre.sys.config.coroutine {
            let v = api::blocking(pre, cpu);
            kernel::lemma_sys_changed(pre, v.sys);
            lemma_schedule_blocks::<S>(v, cpu, post, r->Alarm_1);
        }
    }
}

/// What a task that starts to wait for the exit of another is answered. A parent that has handed its
/// address space to the task `task` goes on as soon as that task has exited, or leads a process of its own.
/// Until then it is blocked, and it is the last of those who wait for the task.
pub proof fn lemma_vfork_suspend<S: BaseScheduler>(
    pre: KernelView,
    cpu: usize,
    task: AxTaskRef,
    post: KernelView,
    r: Waiting,
)
    requires
        pre.wf(),
        pre.sys.valid(task),
        pre.joins.contains_key(task) ==> wait_queue::can_wait(
            pre,
            cpu,
            api::left_vfork(pre.sys, task),
        ),
        api::exit_awaited::<S>(pre, cpu, task, api::left_vfork(pre.sys, task), post, r),
    ensures
        pre.sys.tasks[task as int].state == TaskState::Exited ==> r is Done,
        pre.sys.tasks[task as int].inner.is_leader ==> r is Done,
        !pre.joins.contains_key(task) ==> r is Done && post == pre,
        r is Again ==> {
            &&& pre.sys.tasks[task as int].state != TaskState::Exited
            &&& !pre.sys.tasks[task as int].inner.is_leader
            &&& pre.joins.contains_key(task)
            &&& post.joins.contains_key(task)
            &&& post.joins[task] == pre.joins[task].push(pre.sys.current[cpu as int]->0)
            &&& pre.has_processor(cpu) ==> post.sys.tasks[pre.sys.current[cpu as int]->0 as int].state
                == TaskState::Blocked
        },
        pre.joins.contains_key(task) && pre.sys.tasks[task as int].state != TaskState::Exited
            && !pre.sys.tasks[task as int].inner.is_leader ==> r is Again,
        r is Done && pre.joins.contains_key(task) ==> {
            &&& post.joins.contains_key(task)
            &&& !post.joins[task].contains(pre.sys.current[cpu as int]->0)
            &&& post.sys.current == pre.sys.current
            &&& post.sys.slots == pre.sys.slots
        },
{
    lemma_exit_awaited::<S>(pre, cpu, task, api::left_vfork(pre.sys, task), post, r);
}

/// What a task that starts to wait for another is answered: that it may go on exactly if nobody can wait for
/// the other any more, or if what it waits for has come about already; it is not among those who wait then.
/// Otherwise it is the last of them, and blocked, whatever wake-ups came before.
pub proof fn lemma_exit_awaited<S: BaseScheduler>(
    pre: KernelView,
    cpu: usize,
    task: AxTaskRef,
    condition: bool,
    post: KernelView,
    r: Waiting,
)
    requires
        pre.wf(),
        pre.sys.valid(task),
        pre.joins.contains_key(task) ==> wait_queue::can_wait(pre, cpu, condition),
        api::exit_awaited::<S>(pre, cpu, task, condition, post, r),
    ensures
        r is Done <==> !pre.joins.contains_key(task) || condition,
        !pre.joins.contains_key(task) ==> post == pre,
        r is Again ==> {
            &&& post.joins.contains_key(task)
            &&& post.joins[task] == pre.joins[task].push(pre.sys.current[cpu as int]->0)
            &&& pre.has_processor(cpu) ==> post.sys.tasks[pre.sys.current[cpu as int]->0 as int].state
                == TaskState::Blocked
        },
        r is Done && pre.joins.contains_key(task) ==> {
            &&& post.joins.contains_key(task)
            &&& !post.joins[task].contains(pre.sys.current[cpu as int]->0)
            &&& post.sys.current == pre.sys.current
            &&& post.sys.slots == pre.sys.slots
        },
{
    if pre.joins.contains_key(task) {
        assert(pre.sys.current[cpu as int] is Some);
        let curr = pre.sys.curr(cpu);
        let q = pre.joins[task];
        let v = wait_queue::waiting(pre, cpu);
        kernel::lemma_sys_changed(pre, v.sys);
        if condition {
            wait_queue::lemma_left(q, curr);
        } else {
            let w = api::with_joiners(v, task, q.push(curr));
            assert(w.wf()) by {
                assert forall|t: AxTaskRef| #[trigger]
                    w.joins.contains_key(t) implies w.sys.all_valid(w.joins[t]) by {
                    if t != task {
                        assert(v.joins.contains_key(t));
                    } else {
                        assert(v.sys.all_valid(q));
                    }
                }
            }
            lemma_block::<S>(w, cpu, post, r->Again_0);
        }
    }
}

/// What a task that waits for another already is answered when it looks again: that it may go on exactly if
/// what it waits for has come about. It waits no more then; otherwise nobody starts or ceases to wait.
pub proof fn lemma_exit_awaited_again<S: BaseScheduler>(
    pre: KernelView,
    cpu: usize,
    task: AxTaskRef,
    me: AxTaskRef,
    condition: bool,
    post: KernelView,
    r: Waiting,
)
    requires
        pre.wf(),
        condition || block::can_block(pre, cpu),
        api::exit_awaited_again::<S>(pre, cpu, task, me, condition, post, r),
    ensures
        r is Done <==> condition,
        r is Done ==> {
            &&& post.sys == pre.sys
            &&& post.processors == pre.processors
            &&& pre.joins.contains_key(task) ==> {
                &&& post.joins.contains_key(task)
                &&& forall|t: AxTaskRef| #[trigger]
                    post.joins[task].contains(t) <==> pre.joins[task].contains(t) && t != me
            }
        },
        r is Again ==> {
            let curr = pre.sys.current[cpu as int]->0 as int;
            &&& post.joins == pre.joins
            &&& pre.has_processor(cpu) && pre.sys.tasks[curr].inner.wakeup_cnt == 0
                ==> post.sys.tasks[curr].state == TaskState::Blocked
        },
{
    if condition {
        if pre.joins.contains_key(task) {
            wait_queue::lemma_left(pre.joins[task], me);
        }
    } else {
        lemma_block::<S>(pre, cpu, post, r->Again_0);
    }
}

/// What a parent that waits already is answered when it looks again: that it may go on exactly if the task
/// has exited or leads a process of its own. It waits no more then.
pub proof fn lemma_vfork_suspend_again<S: BaseScheduler>(
    pre: KernelView,
    cpu: usize,
    task: AxTaskRef,
    me: AxTaskRef,
    post: KernelView,
    r: Waiting,
)
    requires
        pre.wf(),
        pre.sys.valid(task),
        api::left_vfork(pre.sys, task) || block::can_block(pre, cpu),
        api::exit_awaited_again::<S>(
            pre,
            cpu,
            task,
            me,
            api::left_vfork(pre.sys, task),
            post,
            r,
        ),
    ensures
        r is Done <==> pre.sys.tasks[task as int].state == TaskState::Exited
            || pre.sys.tasks[task as int].inner.is_leader,
        r is Done ==> {
            &&& post.sys == pre.sys
            &&& post.processors == pre.processors
            &&& pre.joins.contains_key(task) ==> post.joins.contains_key(task)
                && !post.joins[task].contains(me)
        },
        r is Again ==> {
            let curr = pre.sys.current[cpu as int]->0 as int;
            &&& post.joins == pre.joins
            &&& pre.has_processor(cpu) && pre.sys.tasks[curr].inner.wakeup_cnt == 0
                ==> post.sys.tasks[curr].state == TaskState::Blocked
        },
{
    let left = api::left_vfork(pre.sys, task);
    lemma_exit_awaited_again::<S>(pre, cpu, task, me, left, post, r);
}

/// A child that leaves the address space of its parent wakes all who wait for it, and they stay among those
/// who wait until they have looked. Nobody is preempted for it.
pub proof fn lemma_vfork_woken<S: BaseScheduler>(
    pre: KernelView,
    cpu: usize,
    task: AxTaskRef,
    post: KernelView,
    waiter: AxTaskRef,
)
    requires
        pre.wf(),
        pre.sys.valid(waiter),
        exit::can_notify(pre, cpu, task),
        api::vfork_woken::<S>(pre, cpu, task, post),
    ensures
        post.joins == pre.joins,
        post.sys.current == pre.sys.current,
        ({
            let (was, is) = (pre.sys.tasks[waiter as int], post.sys.tasks[waiter as int]);
            let waits = pre.joins.contains_key(task) && pre.joins[task].contains(waiter);
            &&& waits && was.state == TaskState::Blocked ==> is.state == TaskState::Runable
            &&& !waits ==> is.state == was.state
            &&& is.inner.preempt_pending == was.inner.preempt_pending
        }),
{
    if pre.joins.contains_key(task) {
        let free = KernelView { joins: pre.joins.remove(task), ..pre };
        assert(free.wf()) by {
            assert forall|t: AxTaskRef| #[trigger]
                free.joins.contains_key(t) implies free.sys.all_valid(free.joins[t]) by {
                assert(pre.joins.contains_key(t));
            }
        }
        let mid = choose|mid: KernelView|
            {
                &&& #[trigger] wait_queue::all_woken::<S>(free, cpu, pre.joins[task], false, mid)
                &&& post == (KernelView { joins: pre.joins, ..mid })
            };
        assert forall|i: int| 0 <= i < pre.joins[task].len() implies block::can_wake(
            free,
            cpu,
            #[trigger] pre.joins[task][i],
            false,
        ) by {
            assert(block::can_wake(pre, cpu, pre.joins[task][i], false));
        }
        effects::lemma_wake_all::<S>(free, cpu, pre.joins[task], false, mid, waiter);
    }
}

/// Telling those who wait for the exit of a task: all who were blocked for it can run again, nobody else
/// changes state, and nobody can wait for the task any more. Nobody is preempted for it.
pub proof fn lemma_exit_notified<S: BaseScheduler>(
    pre: KernelView,
    cpu: usize,
    task: AxTaskRef,
    post: KernelView,
    t: AxTaskRef,
)
    requires
        pre.wf(),
        pre.sys.valid(t),
        exit::can_notify(pre, cpu, task),
        exit::exit_notified::<S>(pre, cpu, task, post),
    ensures
        post.wf(),
        block::waking_keeps(KernelView { joins: pre.joins.remove(task), ..pre }, post),
        post.joins == pre.joins.remove(task),
        ({
            let (was, is) = (pre.sys.tasks[t as int], post.sys.tasks[t as int]);
            let waits = pre.joins.contains_key(task) && pre.joins[task].contains(t);
            &&& waits && was.state == TaskState::Blocked ==> is.state == TaskState::Runable
            &&& is.state == was.state || waits && is.state == TaskState::Runable && (was.state
                == TaskState::Blocked || was.state == TaskState::Blocking)
            &&& is.inner.preempt_pending == was.inner.preempt_pending
            &&& is.inner.exit_code == was.inner.exit_code
        }),
{
    let free = KernelView { joins: pre.joins.remove(task), ..pre };
    assert(free.wf()) by {
        assert forall|t: AxTaskRef| #[trigger]
            free.joins.contains_key(t) implies free.sys.all_valid(free.joins[t]) by {
            assert(pre.joins.contains_key(t));
        }
    }
    if pre.joins.contains_key(task) {
        let q = pre.joins[task];
        assert forall|i: int| 0 <= i < q.len() implies block::can_wake(
            free,
            cpu,
            #[trigger] q[i],
            false,
        ) by {
            assert(block::can_wake(pre, cpu, q[i], false));
            exit::lemma_can_wake_gone(pre, cpu, q[i], task);
        }
        effects::lemma_wake_all::<S>(free, cpu, q, false, post, t);
        effects::lemma_all_woken_keeps::<S>(free, cpu, q, false, post);
    } else {
        assert(pre.joins.remove(task) =~= pre.joins);
        block::lemma_waking_none(free);
    }
}

/// Telling that the task of a CPU has exited. The task is `Exited` and among those to be dropped; nobody can
/// wait for it any more. Who was blocked for it, and the task that drops exited tasks, can run again; nobody
/// else changes state.
pub proof fn lemma_exit_told<S: BaseScheduler>(
    pre: KernelView,
    cpu: usize,
    post: KernelView,
    t: AxTaskRef,
)
    requires
        pre.wf(),
        processor_ref::runs_on(pre, cpu),
        processor_ref::can_tell_exit(pre, cpu),
        pre.sys.valid(t),
        processor_ref::exit_told::<S>(pre, cpu, post),
    ensures
        post.wf(),
        post.sys.config == pre.sys.config,
        post.sys.current == pre.sys.current,
        post.sys.tasks.len() == pre.sys.tasks.len(),
        post.joins == pre.joins.remove(pre.sys.current[cpu as int]->0),
        post.has_processor(cpu),
        post.processors[cpu as int]->0.exited == pre.processors[cpu as int]->0.exited.push(
            pre.sys.current[cpu as int]->0,
        ),
        ({
            let curr = pre.sys.current[cpu as int]->0;
            let (was, is) = (pre.sys.tasks[t as int], post.sys.tasks[t as int]);
            let gc = pre.processors[cpu as int]->0.gc_waiters;
            let waits = (pre.joins.contains_key(curr) && pre.joins[curr].contains(t)) || (gc.len()
                > 0 && gc[0] == t);
            &&& t == curr ==> is.state == TaskState::Exited
            &&& t != curr && waits && was.state == TaskState::Blocked ==> is.state
                == TaskState::Runable
            &&& t != curr && !waits ==> is.state == was.state
            &&& is.inner.exit_code == was.inner.exit_code
            &&& is.inner.preempt_pending == was.inner.preempt_pending
        }),
{
    assert(pre.sys.current[cpu as int] is Some);
    assert(pre.processors[cpu as int] is Some);
    let curr = pre.sys.curr(cpu);
    let ended = pre.with_sys(pre.sys.with_state(curr, TaskState::Exited));
    let a = choose|a: KernelView|
        {
            &&& #[trigger] exit::exit_notified::<S>(ended, cpu, curr, a)
            &&& processor_ref::kicked::<S>(a, cpu, curr, post)
        };
    kernel::lemma_sys_changed(pre, ended.sys);
    let gc = pre.proc(cpu).gc_waiters;
    exit::lemma_can_notify_ended(pre, cpu, curr, gc);
    lemma_exit_notified::<S>(ended, cpu, curr, a, t);
    lemma_exit_notified::<S>(ended, cpu, curr, a, curr);
    let free = KernelView { joins: ended.joins.remove(curr), ..ended };
    assert(block::kept_processor(free.processors[cpu as int], a.processors[cpu as int]));
    let mid = processor_ref::with_exited(a, cpu, curr);
    assert(a.sys.all_valid(mid.proc(cpu).exited));
    processor::lemma_proc_changed(a, cpu, mid.proc(cpu));
    if gc.len() > 0 {
        assert(pre.sys.valid(gc[0]));
        exit::lemma_first_kept(free, a, cpu, gc);
        processor_ref::lemma_can_wake_kept(a, mid, cpu, gc[0]);
        lemma_exit_notified::<S>(ended, cpu, curr, a, gc[0]);
        assert(mid.sys.current[cpu as int] is Some);
        effects::lemma_wake_tasks::<S>(mid, cpu, gc[0], false, post);
        effects::lemma_woken_wf::<S>(mid, cpu, gc[0], false, post);
        block::lemma_woken::<S>(mid, cpu, gc[0], false, post);
        assert(block::kept_processor(mid.processors[cpu as int], post.processors[cpu as int]));
    }
}

/// How a task ends. It is `Exited`, with its code stored unless the whole kernel ends with it, which happens
/// exactly for the task that the kernel started with. It is among those to be dropped, nobody can wait for
/// it any more, and who was blocked for it can run again.
pub proof fn lemma_exit<S: BaseScheduler>(
    pre: KernelView,
    cpu: usize,
    code: i32,
    post: KernelView,
    r: Exit,
    waiter: AxTaskRef,
)
    requires
        pre.wf(),
        processor_ref::runs_on(pre, cpu),
        processor_ref::can_tell_exit(pre, cpu),
        pre.sys.valid(waiter),
        schedule::exited::<S>(pre, cpu, code, post, r) || processor_ref::exited_on::<S>(
            pre,
            cpu,
            code,
            post,
            r,
        ),
    ensures
        r is Terminate <==> pre.sys.tasks[pre.sys.current[cpu as int]->0 as int].inner.is_init,
        ({
            let curr = pre.sys.current[cpu as int]->0;
            let t = post.sys.tasks[curr as int];
            &&& t.state == TaskState::Exited
            &&& r is Switch ==> t.inner.exit_code == code
            &&& r is Terminate ==> t.inner.exit_code == pre.sys.tasks[curr as int].inner.exit_code
            &&& !post.joins.contains_key(curr)
            &&& post.processors[cpu as int]->0.exited
                == pre.processors[cpu as int]->0.exited.push(curr)
            &&& pre.joins.contains_key(curr) && pre.joins[curr].contains(waiter) && waiter != curr
                && pre.sys.tasks[waiter as int].state == TaskState::Blocked
                ==> post.sys.tasks[waiter as int].state == TaskState::Runable
            &&& r is Terminate ==> post.sys.current == pre.sys.current
        }),
{
    assert(pre.sys.current[cpu as int] is Some);
    assert(pre.processors[cpu as int] is Some);
    let curr = pre.sys.curr(cpu);
    if schedule::exited::<S>(pre, cpu, code, post, r) {
        let b = choose|b: KernelView|
            {
                &&& #[trigger] processor_ref::exit_told::<S>(pre, cpu, b)
                &&& if pre.sys.inner(curr).is_init {
                    post == b && r == Exit::Terminate
                } else {
                    r is Switch && schedule::scheduled::<S>(
                        b.with_sys(run_queue::with_exit_code(b.sys, curr, code)),
                        cpu,
                        post,
                        r->Switch_0,
                    )
                }
            };
        lemma_exit_told::<S>(pre, cpu, b, curr);
        lemma_exit_told::<S>(pre, cpu, b, waiter);
        if !pre.sys.inner(curr).is_init {
            let c = b.with_sys(run_queue::with_exit_code(b.sys, curr, code));
            kernel::lemma_sys_changed(b, c.sys);
            order_on::lemma_scheduled_frame::<S>(c, cpu, post, r->Switch_0);
            switching::lemma_schedule_leaves::<S>(c, cpu, post, r->Switch_0);
            assert(order_on::kept_by_scheduling(
                c.sys.tasks[curr as int],
                post.sys.tasks[curr as int],
            ));
            assert(order_on::kept_by_scheduling(
                c.sys.tasks[waiter as int],
                post.sys.tasks[waiter as int],
            ));
        }
    } else {
        let b = choose|b: KernelView|
            {
                &&& #[trigger] processor_ref::exit_told::<S>(pre, cpu, b)
                &&& if pre.sys.inner(curr).is_init {
                    post == b && r == Exit::Terminate
                } else {
                    r is Switch && processor_ref::rescheduled_on::<S>(
                        b.with_sys(run_queue::with_exit_code(b.sys, curr, code)),
                        cpu,
                        post,
                        r->Switch_0,
                    )
                }
            };
        lemma_exit_told::<S>(pre, cpu, b, curr);
        lemma_exit_told::<S>(pre, cpu, b, waiter);
        if !pre.sys.inner(curr).is_init {
            let c = b.with_sys(run_queue::with_exit_code(b.sys, curr, code));
            kernel::lemma_sys_changed(b, c.sys);
            lemma_exited_rescheduled::<S>(c, cpu, post, r->Switch_0);
            assert(post.sys.tasks[curr as int].state == c.sys.tasks[curr as int].state);
            assert(post.sys.tasks[waiter as int].state == c.sys.tasks[waiter as int].state);
        }
    }
}

/// A processor that reschedules after its task has exited puts it nowhere, and changes no task but that the
/// preemption of the next one is pending no more and that it is on the CPU.
proof fn lemma_exited_rescheduled<S: BaseScheduler>(
    pre: KernelView,
    cpu: usize,
    post: KernelView,
    work: Switched,
)
    requires
        pre.wf(),
        processor_ref::runs_on(pre, cpu),
        pre.sys.tasks[pre.sys.current[cpu as int]->0 as int].state == TaskState::Exited,
        processor_ref::rescheduled_on::<S>(pre, cpu, post, work),
    ensures
        forall|t: int|
            #![trigger post.sys.tasks[t]]
            0 <= t < pre.sys.tasks.len() ==> {
                &&& post.sys.tasks[t].state == pre.sys.tasks[t].state
                &&& post.sys.tasks[t].inner.exit_code == pre.sys.tasks[t].inner.exit_code
            },
        post.joins == pre.joins,
        post.processors[cpu as int]->0.exited == pre.processors[cpu as int]->0.exited,
{
    processor::lemma_picked_on(pre, cpu);
    let sel = processor::picked_on(pre, cpu);
    assert(pre.processors[cpu as int] is Some);
    assert(sel.sys.tasks == pre.sys.tasks);
    assert(pre.sys.current[cpu as int] is Some);
}

/// Handing an exited task over to be dropped: it is the last of those to be dropped, the first of the tasks
/// that wait to drop them can run again if it was blocked, and nobody else changes state.
pub proof fn lemma_gc_cleared<S: BaseScheduler>(
    pre: KernelView,
    cpu: usize,
    task: AxTaskRef,
    post: KernelView,
    t: AxTaskRef,
)
    requires
        pre.wf(),
        pre.sys.valid(task),
        pre.sys.valid(t),
        exit::can_wake_first(pre, cpu, pre.gc_waiters),
        exit::gc_cleared::<S>(pre, cpu, task, post),
    ensures
        post.wf(),
        post.exited == pre.exited.push(task),
        post.gc_waiters == pre.gc_waiters,
        post.joins == pre.joins,
        post.sys.config == pre.sys.config,
        post.sys.current == pre.sys.current,
        post.sys.idle == pre.sys.idle,
        post.sys.tasks.len() == pre.sys.tasks.len(),
        ({
            let (was, is) = (pre.sys.tasks[t as int], post.sys.tasks[t as int]);
            let waits = pre.gc_waiters.len() > 0 && pre.gc_waiters[0] == t;
            &&& waits && was.state == TaskState::Blocked ==> is.state == TaskState::Runable
            &&& !waits ==> is == was
            &&& was.state == TaskState::Exited ==> is.state == TaskState::Exited
            &&& is.inner.is_init == was.inner.is_init
            &&& is.inner.preempt_pending == was.inner.preempt_pending
        }),
{
    let mid = KernelView { exited: pre.exited.push(task), ..pre };
    assert(mid.wf());
    if pre.gc_waiters.len() > 0 {
        let gc = pre.gc_waiters[0];
        assert(pre.sys.valid(gc));
        assert(mid.has_processor(cpu) == pre.has_processor(cpu));
        if mid.sys.running(cpu) {
            assert(mid.sys.current[cpu as int] is Some);
        }
        effects::lemma_wake_tasks::<S>(mid, cpu, gc, false, post);
        effects::lemma_woken_wf::<S>(mid, cpu, gc, false, post);
        block::lemma_woken::<S>(mid, cpu, gc, false, post);
        assert(run_queue::kept_by_waking(mid.sys.tasks[t as int], post.sys.tasks[t as int]));
        if gc != t {
            assert(post.sys.tasks[t as int].inner.preempt_pending
                == mid.sys.tasks[t as int].inner.preempt_pending);
            assert(post.sys.tasks[t as int].inner.wakeup_cnt
                == mid.sys.tasks[t as int].inner.wakeup_cnt);
        }
    }
}

/// How a task ends under the shared run queue. The whole kernel ends exactly with the task that it started
/// with, and then nothing is left to be dropped. Any other task is `Exited` with its code stored, unless its
/// CPU goes on with it all the same, and is among those to be dropped. Nobody can wait for it any more.
pub proof fn lemma_exit_shared<S: BaseScheduler>(
    pre: KernelView,
    cpu: usize,
    code: i32,
    post: KernelView,
    r: Exit,
)
    requires
        pre.wf(),
        run_queue::can_resched(pre.sys, cpu),
        exit::can_notify(pre, cpu, pre.sys.current[cpu as int]->0),
        exit::can_wake_first(pre, cpu, pre.gc_waiters),
        run_queue::exited::<S>(pre, cpu, code, post, r),
    ensures
        r is Terminate <==> pre.sys.tasks[pre.sys.current[cpu as int]->0 as int].inner.is_init,
        r is Terminate ==> post.exited.len() == 0 && post.sys.current == pre.sys.current,
        ({
            let curr = pre.sys.current[cpu as int]->0;
            let t = post.sys.tasks[curr as int];
            &&& r is Switch ==> post.exited == pre.exited.push(curr)
            &&& r is Terminate ==> t.state == TaskState::Exited
            &&& r is Switch && post.sys.current[cpu as int] != Some(curr) ==> t.state
                == TaskState::Exited && t.inner.exit_code == code
            &&& !post.joins.contains_key(curr)
        }),
{
    assert(pre.sys.current[cpu as int] is Some);
    let curr = pre.sys.curr(cpu);
    let ended = pre.with_sys(pre.sys.with_state(curr, TaskState::Exited));
    let (a, b) = choose|a: KernelView, b: KernelView|
        {
            &&& #[trigger] exit::exit_notified::<S>(ended, cpu, curr, a)
            &&& #[trigger] exit::gc_cleared::<S>(a, cpu, curr, b)
            &&& if b.sys.inner(curr).is_init {
                post == (KernelView { exited: Seq::empty(), ..b }) && r == Exit::Terminate
            } else {
                &&& r is Switch
                &&& post == b.with_sys(post.sys)
                &&& run_queue::rescheduled::<S>(
                    run_queue::with_exit_code(b.sys, curr, code),
                    cpu,
                    false,
                    post.sys,
                    r->Switch_0,
                )
            }
        };
    kernel::lemma_sys_changed(pre, ended.sys);
    exit::lemma_can_notify_ended(pre, cpu, curr, pre.gc_waiters);
    lemma_exit_notified::<S>(ended, cpu, curr, a, curr);
    let free = KernelView { joins: ended.joins.remove(curr), ..ended };
    assert(run_queue::kept_by_waking(free.sys.tasks[curr as int], a.sys.tasks[curr as int]));
    assert(free.has_processor(cpu) == ended.has_processor(cpu));
    exit::lemma_first_kept(free, a, cpu, pre.gc_waiters);
    lemma_gc_cleared::<S>(a, cpu, curr, b, curr);
    if !b.sys.inner(curr).is_init {
        let c = b.with_sys(run_queue::with_exit_code(b.sys, curr, code));
        kernel::lemma_sys_changed(b, c.sys);
        switching::lemma_resched_switches::<S>(c.sys, cpu, false, post.sys, r->Switch_0);
        assert(post.sys.current[cpu as int] is Some);
    }
}

/// The task that drops exited tasks, when it goes to wait: it is the last of those who wait to drop them,
/// what is still held elsewhere stays to be dropped later, and nothing else does.
pub proof fn lemma_gc_waits(pre: KernelView, cpu: usize, holders: Seq<usize>, t: AxTaskRef)
    requires
        pre.sys.running(cpu),
        pre.sys.valid(pre.sys.current[cpu as int]->0),
    ensures
        ({
            let post = run_queue::gc_waiting(pre, cpu, holders);
            let curr = pre.sys.current[cpu as int]->0;
            &&& post.gc_waiters == pre.gc_waiters.push(curr)
            &&& post.exited.contains(t) <==> pre.exited.contains(t) && holders[t as int] != 1
            &&& post.sys.tasks[curr as int].inner.wakeup_cnt == 0
            &&& post.sys.tasks[curr as int].state == pre.sys.tasks[curr as int].state
            &&& post.sys.current == pre.sys.current && post.joins == pre.joins
        }),
        pre.has_processor(cpu) ==> {
            let post = processor_ref::gc_waiting_on(pre, cpu, holders);
            let (p, q) = (pre.processors[cpu as int]->0, post.processors[cpu as int]->0);
            let curr = pre.sys.current[cpu as int]->0;
            &&& q.gc_waiters == p.gc_waiters.push(curr)
            &&& q.exited.contains(t) <==> p.exited.contains(t) && holders[t as int] != 1
            &&& q.ready == p.ready && q.prev == p.prev
            &&& post.sys.tasks[curr as int].inner.wakeup_cnt == 0
            &&& post.sys.tasks[curr as int].state == pre.sys.tasks[curr as int].state
            &&& post.sys.current == pre.sys.current && post.joins == pre.joins
        },
{
    lemma_kept_to_drop(pre.exited, holders, t);
    if pre.has_processor(cpu) {
        lemma_kept_to_drop(pre.processors[cpu as int]->0.exited, holders, t);
    }
}

/// Who is kept to be dropped later.
proof fn lemma_kept_to_drop(exited: Seq<AxTaskRef>, holders: Seq<usize>, t: AxTaskRef)
    ensures
        exited.filter(exit::still_held(holders)).contains(t) <==> exited.contains(t)
            && holders[t as int] != 1,
    decreases exited.len(),
{
    let held = exit::still_held(holders);
    reveal(Seq::filter);
    if exited.len() > 0 {
        let less = exited.drop_last();
        lemma_kept_to_drop(less, holders, t);
        assert(exited =~= less.push(exited.last()));
        assert(exited.contains(t) <==> less.contains(t) || t == exited.last()) by {
            if less.contains(t) {
                let i = choose|i: int| 0 <= i < less.len() && less[i] == t;
                assert(exited[i] == t);
            }
            if exited.contains(t) && t != exited.last() {
                let i = choose|i: int| 0 <= i < exited.len() && exited[i] == t;
                assert(less[i] == t);
            }
            assert(exited[exited.len() - 1] == exited.last());
        }
        let kept = less.filter(held);
        if held(exited.last()) {
            assert(exited.filter(held) == kept.push(exited.last()));
            assert(kept.push(exited.last())[kept.len() as int] == exited.last());
            assert(kept.push(exited.last()).contains(t) <==> kept.contains(t) || t
                == exited.last()) by {
                if kept.contains(t) {
                    let i = choose|i: int| 0 <= i < kept.len() && kept[i] == t;
                    assert(kept.push(exited.last())[i] == t);
                }
            }
        }
    }
}

/// Only a task that can run is removed: any other stays as it is, and so does all else.
pub proof fn lemma_not_removed<S: RemovableScheduler>(
    pre: KernelView,
    cpu: usize,
    task: AxTaskRef,
    post: KernelView,
)
    requires
        run_queue::task_removed::<S>(pre, cpu, task, post),
        pre.sys.tasks[task as int].state != TaskState::Runable,
    ensures
        post == pre,
{
}

} // verus!
