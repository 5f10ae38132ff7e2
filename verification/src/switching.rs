//! How a CPU goes over from one task to another.
//!
//! Each law here speaks of the kernel before and after, and of the machine work that is handed out, in terms
//! of the tasks themselves: whose address space is entered, who runs, and what becomes of the task that ran.
use crate::kernel::KernelView;
use crate::order;
use crate::order_on;
use crate::processor;
use crate::processor::ProcessorView;
use crate::processor_ref;
use crate::run_queue;
use crate::sched;
use crate::sched::{BaseScheduler, Entry};
use crate::schedule;
use crate::system;
use crate::system::{AxTaskRef, Slot, Switched, SystemView};
use crate::task::{ScheduleTask, TaskInner, TaskState};
use vstd::prelude::*;

verus! {

/// A CPU that schedules goes over to the task that it runs from then on, in that task's address space. It
/// stays only with the task that it ran, and a coroutine is left even for itself.
pub proof fn lemma_schedule_switches<S: BaseScheduler>(
    pre: KernelView,
    cpu: usize,
    post: KernelView,
    work: Switched,
)
    requires
        pre.wf(),
        processor_ref::runs_on(pre, cpu),
        schedule::scheduled::<S>(pre, cpu, post, work),
    ensures
        post.sys.current[cpu as int] is Some,
        work is To ==> {
            let t = pre.sys.tasks[post.sys.current[cpu as int]->0 as int].inner;
            &&& work->To_0.prev == pre.sys.current[cpu as int]->0
            &&& work->To_0.next == post.sys.current[cpu as int]->0
            &&& pre.sys.config.monolithic && t.page_table_token != 0 ==> work->To_0.page_table == Some(
                t.page_table_token,
            )
            &&& !pre.sys.config.monolithic || t.page_table_token == 0 ==> work->To_0.page_table is None
            &&& work->To_0.account_time == pre.sys.config.monolithic
        },
        work is Stay <==> {
            &&& post.sys.current[cpu as int] == pre.sys.current[cpu as int]
            &&& !pre.sys.config.coroutine || pre.sys.tasks[pre.sys.current[cpu as int]->0 as int].inner.is_idle
        },
        work is To ==> {
            &&& post.processors[cpu as int]->0.prev == pre.sys.current[cpu as int]
            &&& post.sys.tasks[pre.sys.current[cpu as int]->0 as int].state_locked
        },
{
    let prev = pre.sys.curr(cpu);
    let first = processor::next_on(pre, cpu);
    let sel = processor::picked_on(pre, cpu);
    processor::lemma_picked_on(pre, cpu);
    let (mid, next) = choose|mid: KernelView, next: AxTaskRef|
        {
            &&& #[trigger] schedule::settled::<S>(sel, cpu, first, mid, next)
            &&& post == schedule::moved(mid, cpu, prev, next)
            &&& work == schedule::move_work(mid.sys, prev, next)
        };
    assert(pre.sys.current[cpu as int] is Some);
    assert(pre.sys.valid(prev));
    order_on::lemma_settled_frame::<S>(sel, cpu, first, mid, next);
    assert(mid.sys.config == pre.sys.config);
    assert(mid.sys.tasks[next as int].inner == pre.sys.tasks[next as int].inner);
}

/// Rescheduling on a processor goes over to the task that the CPU runs from then on, in that task's
/// address space, and stays only with the task that it ran.
pub proof fn lemma_reschedule_switches<S: BaseScheduler>(
    pre: KernelView,
    cpu: usize,
    post: KernelView,
    work: Switched,
)
    requires
        pre.wf(),
        processor_ref::runs_on(pre, cpu),
        processor_ref::rescheduled_on::<S>(pre, cpu, post, work),
    ensures
        post.sys.current[cpu as int] is Some,
        work is To ==> {
            let t = pre.sys.tasks[post.sys.current[cpu as int]->0 as int].inner;
            &&& work->To_0.prev == pre.sys.current[cpu as int]->0
            &&& work->To_0.next == post.sys.current[cpu as int]->0
            &&& pre.sys.config.monolithic && t.page_table_token != 0 ==> work->To_0.page_table == Some(
                t.page_table_token,
            )
            &&& !pre.sys.config.monolithic || t.page_table_token == 0 ==> work->To_0.page_table is None
            &&& work->To_0.account_time == pre.sys.config.monolithic
        },
        work is Stay <==> post.sys.current[cpu as int] == pre.sys.current[cpu as int],
        work is To ==> post.processors[cpu as int]->0.prev == pre.sys.current[cpu as int],
{
    let prev = pre.sys.curr(cpu);
    let mid = choose|mid: KernelView|
        {
            &&& #[trigger] processor_ref::put_back_on::<S>(pre, cpu, mid)
            &&& post == processor_ref::switched_on(
                processor::picked_on(mid, cpu),
                cpu,
                prev,
                processor::next_on(mid, cpu),
            )
            &&& work == run_queue::switch_work(
                processor::picked_on(mid, cpu).sys,
                prev,
                processor::next_on(mid, cpu),
            )
        };
    assert(pre.sys.current[cpu as int] is Some);
    assert(mid.sys.tasks == pre.sys.tasks);
    assert(mid.sys.config == pre.sys.config);
}

/// The tasks and the options are the same after a search for a task to run.
pub proof fn lemma_search_frame<S: BaseScheduler>(steps: Seq<SystemView>, cpu: usize, i: int)
    requires
        run_queue::search::<S>(steps, cpu),
        0 <= i < steps.len(),
        steps[0].wf(),
    ensures
        steps[i].wf(),
        steps[i].tasks == steps[0].tasks,
        steps[i].config == steps[0].config,
        steps[i].current == steps[0].current,
        steps[i].idle == steps[0].idle,
    decreases i,
{
    if i > 0 {
        lemma_search_frame::<S>(steps, cpu, i - 1);
        assert(run_queue::passed_over::<S>(steps[i - 1], cpu, steps[i - 1 + 1]));
        let task = steps[i - 1].run_queue[0].id;
        system::lemma_picked(steps[i - 1]);
        order::lemma_requeued_wf::<S>(system::picked(steps[i - 1]), task, false, steps[i]);
    }
}

/// The tasks and the options are the same once a task to run is chosen.
pub proof fn lemma_chosen_frame<S: BaseScheduler>(
    pre: SystemView,
    cpu: usize,
    next: AxTaskRef,
    post: SystemView,
)
    requires
        pre.wf(),
        cpu < pre.idle.len(),
        pre.idle[cpu as int] is Some,
        run_queue::chosen::<S>(pre, cpu, next, post),
    ensures
        pre.valid(next),
        post.tasks == pre.tasks,
        post.config == pre.config,
        post.current == pre.current,
        post.idle == pre.idle,
{
    if pre.config.monolithic {
        let (steps, task) = choose|steps: Seq<SystemView>, task: Option<AxTaskRef>|
            {
                &&& #[trigger] run_queue::search::<S>(steps, cpu)
                &&& steps[0] == pre
                &&& #[trigger] run_queue::found::<S>(steps, cpu, task, post)
                &&& next == match task {
                    Some(t) => t,
                    None => pre.idle[cpu as int]->0,
                }
            };
        lemma_search_frame::<S>(steps, cpu, steps.len() - 1);
        if steps.last().run_queue.len() > 0 {
            system::lemma_picked(steps.last());
        }
    } else if pre.run_queue.len() > 0 {
        system::lemma_picked(pre);
    }
}

/// Rescheduling from the shared run queue goes over to the task that the CPU runs from then on, in that
/// task's address space, and stays only with the task that it ran. The task that runs is `Running`, and
/// its preemption is pending no more.
pub proof fn lemma_resched_switches<S: BaseScheduler>(
    pre: SystemView,
    cpu: usize,
    preempt: bool,
    post: SystemView,
    work: Switched,
)
    requires
        pre.wf(),
        run_queue::can_resched(pre, cpu),
        run_queue::rescheduled::<S>(pre, cpu, preempt, post, work),
    ensures
        post.current[cpu as int] is Some,
        work is To ==> {
            let t = pre.tasks[post.current[cpu as int]->0 as int].inner;
            &&& work->To_0.prev == pre.current[cpu as int]->0
            &&& work->To_0.next == post.current[cpu as int]->0
            &&& pre.config.monolithic && t.page_table_token != 0 ==> work->To_0.page_table == Some(
                t.page_table_token,
            )
            &&& !pre.config.monolithic || t.page_table_token == 0 ==> work->To_0.page_table is None
            &&& work->To_0.account_time == pre.config.monolithic
        },
        work is Stay <==> post.current[cpu as int] == pre.current[cpu as int],
        forall|t: int|
            #![trigger post.tasks[t]]
            0 <= t < pre.tasks.len() && t != post.current[cpu as int]->0 ==> post.tasks[t] == pre.tasks[t],
        post.tasks[post.current[cpu as int]->0 as int].state == TaskState::Running,
        pre.config.preempt
            ==> !post.tasks[post.current[cpu as int]->0 as int].inner.preempt_pending,
        forall|c: int|
            #![trigger post.current[c]]
            0 <= c < pre.current.len() && c != cpu ==> post.current[c] == pre.current[c],
{
    let prev = pre.curr(cpu);
    let (sel, next) = lemma_resched_from::<S>(pre, cpu, preempt, post, work);
    assert(pre.current[cpu as int] is Some);
    lemma_switched_leaves(sel, cpu, prev, next);
}

/// What is left alone when a CPU of the shared run queue goes over from one task to another.
pub proof fn lemma_switched_leaves(pre: SystemView, cpu: usize, prev: AxTaskRef, next: AxTaskRef)
    requires
        cpu < pre.current.len(),
        pre.current[cpu as int] == Some(prev),
        pre.valid(prev),
        pre.valid(next),
    ensures
        ({
            let post = run_queue::switched(pre, cpu, prev, next);
            &&& post.config == pre.config
            &&& post.current == pre.current.update(cpu as int, Some(next))
            &&& post.tasks.len() == pre.tasks.len()
            &&& post.tasks[next as int].state == TaskState::Running
            &&& pre.config.preempt ==> !post.tasks[next as int].inner.preempt_pending
            &&& forall|t: int|
                #![trigger post.tasks[t]]
                0 <= t < pre.tasks.len() && t != next ==> post.tasks[t] == pre.tasks[t]
        }),
{
    let post = run_queue::switched(pre, cpu, prev, next);
    assert(post.current =~= pre.current.update(cpu as int, Some(next)));
}


/// What is left alone while it is settled what becomes of the task that a CPU ran.
proof fn lemma_settled_leaves<S: BaseScheduler>(
    pre: KernelView,
    cpu: usize,
    first: AxTaskRef,
    mid: KernelView,
    next: AxTaskRef,
)
    requires
        pre.wf(),
        processor_ref::runs_on(pre, cpu),
        schedule::settled::<S>(pre, cpu, first, mid, next),
    ensures
        mid.sys.config == pre.sys.config,
        mid.sys.run_queue == pre.sys.run_queue,
        mid.sys.idle == pre.sys.idle,
        mid.sys.current == pre.sys.current,
        mid.sys.slots.len() == pre.sys.slots.len(),
        mid.joins == pre.joins,
        mid.exited == pre.exited,
        mid.gc_waiters == pre.gc_waiters,
        mid.processors.len() == pre.processors.len(),
        mid.processors[cpu as int] is Some,
        mid.proc(cpu) == (ProcessorView { ready: mid.proc(cpu).ready, ..pre.proc(cpu) }),
        forall|c: int|
            #![trigger mid.processors[c]]
            0 <= c < pre.processors.len() && c != cpu ==> mid.processors[c] == pre.processors[c],
        forall|t: int|
            #![trigger mid.sys.slots[t]]
            0 <= t < pre.sys.slots.len() && t != pre.sys.curr(cpu) ==> mid.sys.slots[t]
                == pre.sys.slots[t],
{
    assert(pre.processors[cpu as int] is Some);
    assert(pre.sys.current[cpu as int] is Some);
}

/// What is left alone when a CPU goes over from one task to another.
proof fn lemma_moved_leaves(pre: KernelView, cpu: usize, prev: AxTaskRef, next: AxTaskRef)
    requires
        cpu < pre.processors.len(),
        pre.processors[cpu as int] is Some,
        cpu < pre.sys.current.len(),
        pre.sys.current[cpu as int] == Some(prev),
        pre.sys.valid(prev),
        pre.sys.valid(next),
    ensures
        ({
            let post = schedule::moved(pre, cpu, prev, next);
            &&& post.sys.config == pre.sys.config
            &&& post.sys.run_queue == pre.sys.run_queue
            &&& post.sys.idle == pre.sys.idle
            &&& post.sys.slots == pre.sys.slots
            &&& post.sys.current == pre.sys.current.update(cpu as int, Some(next))
            &&& post.joins == pre.joins
            &&& post.exited == pre.exited
            &&& post.gc_waiters == pre.gc_waiters
            &&& post.processors.len() == pre.processors.len()
            &&& post.processors[cpu as int] is Some
            &&& post.proc(cpu) == (ProcessorView { prev: post.proc(cpu).prev, ..pre.proc(cpu) })
            &&& forall|c: int|
                #![trigger post.processors[c]]
                0 <= c < pre.processors.len() && c != cpu ==> post.processors[c] == pre.processors[c]
            &&& forall|t: int|
                #![trigger post.sys.tasks[t]]
                0 <= t < pre.sys.tasks.len() && t != prev && t != next ==> post.sys.tasks[t]
                    == pre.sys.tasks[t]
            &&& pre.sys.config.preempt ==> !post.sys.tasks[next as int].inner.preempt_pending
            &&& post.sys.tasks[prev as int].state == pre.sys.tasks[prev as int].state
            &&& post.sys.tasks[prev as int].inner.exit_code
                == pre.sys.tasks[prev as int].inner.exit_code
            &&& post.sys.tasks[prev as int].inner.wakeup_cnt
                == pre.sys.tasks[prev as int].inner.wakeup_cnt
        }),
{
    let post = schedule::moved(pre, cpu, prev, next);
    assert(post.sys.current =~= pre.sys.current.update(cpu as int, Some(next)));
}

/// Who runs when a CPU schedules, and what becomes of the task that it ran. The first of its ready queue
/// runs; if nobody waits, the task goes on if it can, and else the idle task runs. A task that is left and
/// can run on waits in the ready queue of the CPU; one that wanted to block is `Blocked`; one that has
/// exited stays so.
#[verifier::rlimit(60)]
pub proof fn lemma_schedule_next<S: BaseScheduler>(
    pre: KernelView,
    cpu: usize,
    post: KernelView,
    work: Switched,
)
    requires
        pre.wf(),
        processor_ref::runs_on(pre, cpu),
        pre.sys.slots[pre.sys.current[cpu as int]->0 as int] is Held,
        pre.sys.tasks[pre.processors[cpu as int]->0.idle as int].inner.is_idle,
        pre.sys.slots[pre.processors[cpu as int]->0.idle as int] is Held,
        schedule::scheduled::<S>(pre, cpu, post, work),
    ensures
        ({
            let list = pre.processors[cpu as int]->0.ready.list;
            let prev = pre.sys.current[cpu as int]->0;
            let next = post.sys.current[cpu as int]->0;
            let was = pre.sys.tasks[prev as int];
            let is = post.sys.tasks[prev as int];
            &&& list.len() > 0 && !pre.sys.tasks[list[0].id as int].inner.is_idle ==> {
                &&& next == list[0].id
                &&& post.sys.slots[next as int] == Slot::Held(list[0])
            }
            &&& list.len() == 0 && was.state == TaskState::Runable ==> next == prev
            &&& list.len() == 0 && was.state != TaskState::Runable ==> next
                == pre.processors[cpu as int]->0.idle
            &&& was.state == TaskState::Runable && next != prev && !was.inner.is_idle ==> {
                &&& is.state == TaskState::Runable
                &&& post.sys.slots[prev as int] == Slot::Processor(cpu)
                &&& sched::listed(post.processors[cpu as int]->0.ready, prev)
            }
            &&& was.state == TaskState::Blocking ==> {
                &&& is.state == TaskState::Blocked
                &&& post.sys.slots[prev as int] == pre.sys.slots[prev as int]
            }
            &&& was.state == TaskState::Exited ==> {
                &&& is.state == TaskState::Exited
                &&& post.sys.slots[prev as int] == pre.sys.slots[prev as int]
            }
            &&& is.inner.exit_code == was.inner.exit_code
            &&& is.inner.wakeup_cnt == was.inner.wakeup_cnt
        }),
{
    let prev = pre.sys.curr(cpu);
    let first = processor::next_on(pre, cpu);
    let sel = processor::picked_on(pre, cpu);
    processor::lemma_picked_on(pre, cpu);
    let (mid, next) = choose|mid: KernelView, next: AxTaskRef|
        {
            &&& #[trigger] schedule::settled::<S>(sel, cpu, first, mid, next)
            &&& post == schedule::moved(mid, cpu, prev, next)
            &&& work == schedule::move_work(mid.sys, prev, next)
        };
    assert(pre.sys.current[cpu as int] is Some);
    assert(pre.processors[cpu as int] is Some);
    assert(pre.sys.valid(prev));
    let p = pre.proc(cpu);
    if p.ready.len() > 0 {
        assert(sched::listed(p.ready, first));
        assert(first != prev);
    }
    assert(sel.sys.slots[prev as int] == pre.sys.slots[prev as int]);
    assert(sel.sys.current == pre.sys.current);
    order_on::lemma_settled_frame::<S>(sel, cpu, first, mid, next);
    lemma_settled_leaves::<S>(sel, cpu, first, mid, next);
    lemma_moved_leaves(mid, cpu, prev, next);
    if pre.sys.state(prev) == TaskState::Runable && !pre.sys.inner(first).is_idle
        && !pre.sys.inner(prev).is_idle {
        lemma_requeued_listed::<S>(
            sel,
            cpu,
            prev,
            sel.sys.config.preempt && sel.sys.inner(prev).preempt_pending,
            mid,
        );
    }
}

/// A task that is put back waits in the ready queue of the CPU, and all else is as before.
pub proof fn lemma_requeued_listed<S: BaseScheduler>(
    pre: KernelView,
    cpu: usize,
    task: AxTaskRef,
    preempt: bool,
    post: KernelView,
)
    requires
        pre.wf(),
        pre.has_processor(cpu),
        pre.sys.valid(task),
        pre.sys.slots[task as int] is Held,
        processor::requeued_on::<S>(pre, cpu, task, preempt, post),
    ensures
        post.wf(),
        post.sys.slots == pre.sys.slots.update(task as int, Slot::Processor(cpu)),
        sched::listed(post.proc(cpu).ready, task),
        exists|x: Entry|
            x.id == task && #[trigger] sched::inserted(pre.proc(cpu).ready, x, post.proc(cpu).ready),
{
    let e = pre.sys.slots[task as int]->Held_0;
    let ready = post.proc(cpu).ready;
    processor::lemma_ready_queue(pre, cpu, task);
    S::puts_inserts(e, preempt, pre.proc(cpu).ready, ready);
    let x = choose|x: Entry|
        x.id == e.id && sched::akin(e, x) && sched::fits(x) && #[trigger] sched::inserted(
            pre.proc(cpu).ready,
            x,
            ready,
        );
    sched::lemma_inserted(pre.proc(cpu).ready, x, ready);
    processor::lemma_into_processor(pre, cpu, task, x, ready);
}

/// What scheduling on CPU `cpu` leaves alone: all tasks but the one that it ran and the one that it runs,
/// all other CPUs and their processors, and who waits for whom.
pub proof fn lemma_schedule_leaves<S: BaseScheduler>(
    pre: KernelView,
    cpu: usize,
    post: KernelView,
    work: Switched,
)
    requires
        pre.wf(),
        processor_ref::runs_on(pre, cpu),
        schedule::scheduled::<S>(pre, cpu, post, work),
    ensures
        post.sys.config == pre.sys.config,
        post.sys.run_queue == pre.sys.run_queue,
        post.sys.idle == pre.sys.idle,
        post.joins == pre.joins,
        post.exited == pre.exited,
        post.gc_waiters == pre.gc_waiters,
        forall|c: int|
            #![trigger post.sys.current[c]]
            0 <= c < pre.sys.current.len() && c != cpu ==> post.sys.current[c] == pre.sys.current[c],
        forall|c: int|
            #![trigger post.processors[c]]
            0 <= c < pre.processors.len() && c != cpu ==> post.processors[c] == pre.processors[c],
        forall|t: int|
            #![trigger post.sys.tasks[t]]
            0 <= t < pre.sys.tasks.len() && t != pre.sys.current[cpu as int]->0 && t
                != post.sys.current[cpu as int]->0 ==> post.sys.tasks[t] == pre.sys.tasks[t],
        pre.sys.config.preempt
            ==> !post.sys.tasks[post.sys.current[cpu as int]->0 as int].inner.preempt_pending,
        ({
            let (p, q) = (pre.processors[cpu as int]->0, post.processors[cpu as int]->0);
            &&& q.exited == p.exited
            &&& q.gc_waiters == p.gc_waiters
            &&& q.idle == p.idle
            &&& q.gc == p.gc
            &&& q.stacks == p.stacks
            &&& q.curr_stack == p.curr_stack
        }),
{
    let prev = pre.sys.curr(cpu);
    let (mid, next) = lemma_scheduled_from::<S>(pre, cpu, post, work);
    assert(pre.sys.current[cpu as int] is Some);
    lemma_moved_leaves(mid, cpu, prev, next);
}

/// What is left alone when a processor goes over from one task to another.
pub proof fn lemma_switched_on_leaves(pre: KernelView, cpu: usize, prev: AxTaskRef, next: AxTaskRef)
    requires
        cpu < pre.processors.len(),
        pre.processors[cpu as int] is Some,
        cpu < pre.sys.current.len(),
        pre.sys.current[cpu as int] == Some(prev),
        pre.sys.valid(prev),
        pre.sys.valid(next),
    ensures
        ({
            let post = processor_ref::switched_on(pre, cpu, prev, next);
            &&& post.sys.slots == pre.sys.slots
            &&& post.sys.current == pre.sys.current.update(cpu as int, Some(next))
            &&& post.joins == pre.joins
            &&& post.processors.len() == pre.processors.len()
            &&& post.processors[cpu as int] is Some
            &&& post.proc(cpu).ready == pre.proc(cpu).ready
            &&& forall|c: int|
                #![trigger post.processors[c]]
                0 <= c < pre.processors.len() && c != cpu ==> post.processors[c] == pre.processors[c]
            &&& forall|t: int|
                #![trigger post.sys.tasks[t]]
                0 <= t < pre.sys.tasks.len() && t != next ==> post.sys.tasks[t] == pre.sys.tasks[t]
            &&& post.sys.tasks[next as int].state == pre.sys.tasks[next as int].state
            &&& pre.sys.config.preempt ==> !post.sys.tasks[next as int].inner.preempt_pending
            &&& pre.sys.config.smp && next != prev ==> post.sys.tasks[next as int].on_cpu
        }),
{
    let post = processor_ref::switched_on(pre, cpu, prev, next);
    assert(post.sys.current =~= pre.sys.current.update(cpu as int, Some(next)));
}

/// What is left alone when the next task for a processor is taken out of its ready queue.
pub proof fn lemma_picked_on_leaves(pre: KernelView, cpu: usize)
    requires
        pre.wf(),
        pre.has_processor(cpu),
    ensures
        ({
            let post = processor::picked_on(pre, cpu);
            let ready = pre.proc(cpu).ready;
            &&& post.sys.tasks == pre.sys.tasks
            &&& post.sys.config == pre.sys.config
            &&& post.sys.current == pre.sys.current
            &&& post.joins == pre.joins
            &&& post.processors.len() == pre.processors.len()
            &&& post.processors[cpu as int] is Some
            &&& ready.len() > 0 ==> post.proc(cpu).ready == ready.rest()
            &&& ready.len() == 0 ==> post == pre
            &&& forall|c: int|
                #![trigger post.processors[c]]
                0 <= c < pre.processors.len() && c != cpu ==> post.processors[c] == pre.processors[c]
            &&& forall|t: int|
                #![trigger post.sys.slots[t]]
                0 <= t < pre.sys.slots.len() && (ready.len() > 0 ==> t != ready[0].id)
                    ==> post.sys.slots[t] == pre.sys.slots[t]
        }),
{
    processor::lemma_picked_on(pre, cpu);
}

/// Who runs when a processor reschedules, and what becomes of the task that it ran. If that cannot run on,
/// the first of the ready queue runs, or the idle task if nobody waits. If it can, it is put back: it goes
/// on if nobody else waits, and else it or the first of the queue runs, and the other waits.
#[verifier::rlimit(60)]
pub proof fn lemma_reschedule_next<S: BaseScheduler>(
    pre: KernelView,
    cpu: usize,
    post: KernelView,
    work: Switched,
)
    requires
        pre.wf(),
        processor_ref::runs_on(pre, cpu),
        pre.sys.slots[pre.sys.current[cpu as int]->0 as int] is Held,
        processor_ref::rescheduled_on::<S>(pre, cpu, post, work),
    ensures
        ({
            let list = pre.processors[cpu as int]->0.ready.list;
            let prev = pre.sys.current[cpu as int]->0;
            let next = post.sys.current[cpu as int]->0;
            let was = pre.sys.tasks[prev as int];
            let goes_back = was.state == TaskState::Runable && !was.inner.is_idle;
            &&& !goes_back && list.len() > 0 ==> next == list[0].id
            &&& !goes_back && list.len() == 0 ==> next == pre.processors[cpu as int]->0.idle
            &&& goes_back && list.len() == 0 ==> next == prev
            &&& goes_back && list.len() > 0 ==> next == prev || next == list[0].id
            &&& goes_back && next != prev ==> {
                &&& post.sys.slots[prev as int] == Slot::Processor(cpu)
                &&& sched::listed(post.processors[cpu as int]->0.ready, prev)
            }
            &&& !goes_back && next != prev ==> post.sys.slots[prev as int]
                == pre.sys.slots[prev as int]
            &&& post.sys.tasks[prev as int].state == was.state
            &&& pre.sys.config.preempt ==> !post.sys.tasks[next as int].inner.preempt_pending
            &&& pre.sys.config.smp && next != prev ==> post.sys.tasks[next as int].on_cpu
        }),
        forall|c: int|
            #![trigger post.sys.current[c]]
            0 <= c < pre.sys.current.len() && c != cpu ==> post.sys.current[c] == pre.sys.current[c],
        forall|c: int|
            #![trigger post.processors[c]]
            0 <= c < pre.processors.len() && c != cpu ==> post.processors[c] == pre.processors[c],
        forall|t: int|
            #![trigger post.sys.tasks[t]]
            0 <= t < pre.sys.tasks.len() && t != post.sys.current[cpu as int]->0 ==> post.sys.tasks[t]
                == pre.sys.tasks[t],
        post.joins == pre.joins,
{
    let prev = pre.sys.curr(cpu);
    let mid = choose|mid: KernelView|
        {
            &&& #[trigger] processor_ref::put_back_on::<S>(pre, cpu, mid)
            &&& post == processor_ref::switched_on(
                processor::picked_on(mid, cpu),
                cpu,
                prev,
                processor::next_on(mid, cpu),
            )
            &&& work == run_queue::switch_work(
                processor::picked_on(mid, cpu).sys,
                prev,
                processor::next_on(mid, cpu),
            )
        };
    assert(pre.sys.current[cpu as int] is Some);
    assert(pre.processors[cpu as int] is Some);
    assert(pre.sys.valid(prev));
    let list = pre.proc(cpu).ready.list;
    if list.len() > 0 {
        assert(sched::listed(pre.proc(cpu).ready, list[0].id));
        assert(list[0].id != prev);
    }
    let next = processor::next_on(mid, cpu);
    let goes_back = pre.sys.state(prev) == TaskState::Runable && !pre.sys.inner(prev).is_idle;
    if goes_back {
        let preempt = pre.sys.config.preempt && pre.sys.inner(prev).preempt_pending;
        lemma_requeued_listed::<S>(pre, cpu, prev, preempt, mid);
    }
    assert(mid.wf() && mid.has_processor(cpu) && mid.sys.tasks == pre.sys.tasks);
    processor::lemma_picked_on(mid, cpu);
    lemma_picked_on_leaves(mid, cpu);
    lemma_switched_on_leaves(processor::picked_on(mid, cpu), cpu, prev, next);
    if goes_back {
        let after = mid.proc(cpu).ready;
        let x = choose|x: Entry|
            x.id == prev && #[trigger] sched::inserted(pre.proc(cpu).ready, x, after);
        lemma_first_of_inserted(pre.proc(cpu).ready, x, after);
    }
}

/// What comes first after an item was put among others.
pub proof fn lemma_first_of_inserted(before: sched::Ready, x: Entry, after: sched::Ready)
    requires
        sched::inserted(before, x, after),
    ensures
        after.len() == before.len() + 1,
        before.len() == 0 ==> after[0] == x,
        before.len() > 0 ==> after[0] == x || after[0] == before[0],
        after[0] != x ==> sched::listed(after.rest(), x.id),
{
    let at = choose|at: int|
        0 <= at <= before.list.len() && after.list == #[trigger] before.list.insert(at, x);
    if at > 0 {
        assert(after.list[0] == before.list[0]);
        assert(after.rest().list[at - 1] == x);
    } else {
        assert(after.list[0] == x);
    }
}

/// What going over to a task on a processor changes of it.
proof fn lemma_switched_on_changes(pre: KernelView, cpu: usize, prev: AxTaskRef, next: AxTaskRef)
    requires
        pre.sys.valid(next),
        cpu < pre.sys.current.len(),
        pre.sys.current[cpu as int] == Some(prev),
    ensures
        ({
            let post = processor_ref::switched_on(pre, cpu, prev, next);
            let (t, u) = (pre.sys.tasks[next as int], post.sys.tasks[next as int]);
            &&& post.sys.current[cpu as int] == Some(next)
            &&& u == (ScheduleTask {
                on_cpu: u.on_cpu,
                inner: TaskInner { preempt_pending: u.inner.preempt_pending, ..t.inner },
                ..t
            })
            &&& u.inner.preempt_pending == (t.inner.preempt_pending && !pre.sys.config.preempt)
            &&& u.on_cpu == (t.on_cpu || pre.sys.config.smp && prev != next)
        }),
{
}

/// What going over to a task from the shared run queue changes of it.
proof fn lemma_switched_changes(pre: SystemView, cpu: usize, prev: AxTaskRef, next: AxTaskRef)
    requires
        pre.valid(next),
        cpu < pre.current.len(),
        pre.current[cpu as int] == Some(prev),
    ensures
        ({
            let post = run_queue::switched(pre, cpu, prev, next);
            let (t, u) = (pre.tasks[next as int], post.tasks[next as int]);
            &&& post.current[cpu as int] == Some(next)
            &&& u == (ScheduleTask {
                state: TaskState::Running,
                inner: TaskInner { preempt_pending: u.inner.preempt_pending, ..t.inner },
                ..t
            })
            &&& u.inner.preempt_pending == (t.inner.preempt_pending && !pre.config.preempt)
        }),
{
}

/// What a CPU goes over from when it schedules, and to whom.
proof fn lemma_scheduled_from<S: BaseScheduler>(
    pre: KernelView,
    cpu: usize,
    post: KernelView,
    work: Switched,
) -> (r: (KernelView, AxTaskRef))
    requires
        pre.wf(),
        processor_ref::runs_on(pre, cpu),
        schedule::scheduled::<S>(pre, cpu, post, work),
    ensures
        r.0.sys.config == pre.sys.config,
        r.0.sys.run_queue == pre.sys.run_queue,
        r.0.sys.idle == pre.sys.idle,
        r.0.sys.current == pre.sys.current,
        r.0.joins == pre.joins,
        r.0.exited == pre.exited,
        r.0.gc_waiters == pre.gc_waiters,
        r.0.processors.len() == pre.processors.len(),
        r.0.processors[cpu as int] is Some,
        r.0.proc(cpu) == (ProcessorView { ready: r.0.proc(cpu).ready, ..pre.proc(cpu) }),
        forall|c: int|
            #![trigger r.0.processors[c]]
            0 <= c < pre.processors.len() && c != cpu ==> r.0.processors[c] == pre.processors[c],
        forall|t: int|
            #![trigger r.0.sys.tasks[t]]
            0 <= t < pre.sys.tasks.len() && t != pre.sys.curr(cpu) ==> r.0.sys.tasks[t]
                == pre.sys.tasks[t],
        r.0.sys.tasks.len() == pre.sys.tasks.len(),
        r.0.sys.valid(r.1),
        post == schedule::moved(r.0, cpu, pre.sys.curr(cpu), r.1),
        work == schedule::move_work(r.0.sys, pre.sys.curr(cpu), r.1),
{
    let prev = pre.sys.curr(cpu);
    let first = processor::next_on(pre, cpu);
    let sel = processor::picked_on(pre, cpu);
    processor::lemma_picked_on(pre, cpu);
    let (mid, next) = choose|mid: KernelView, next: AxTaskRef|
        {
            &&& #[trigger] schedule::settled::<S>(sel, cpu, first, mid, next)
            &&& post == schedule::moved(mid, cpu, prev, next)
            &&& work == schedule::move_work(mid.sys, prev, next)
        };
    assert(pre.sys.current[cpu as int] is Some);
    assert(pre.processors[cpu as int] is Some);
    order_on::lemma_settled_frame::<S>(sel, cpu, first, mid, next);
    lemma_settled_leaves::<S>(sel, cpu, first, mid, next);
    (mid, next)
}

/// What a processor goes over from when it reschedules, and to whom.
proof fn lemma_rescheduled_from<S: BaseScheduler>(
    pre: KernelView,
    cpu: usize,
    post: KernelView,
    work: Switched,
) -> (r: (KernelView, AxTaskRef))
    requires
        pre.wf(),
        processor_ref::runs_on(pre, cpu),
        pre.sys.slots[pre.sys.curr(cpu) as int] is Held,
        processor_ref::rescheduled_on::<S>(pre, cpu, post, work),
    ensures
        r.0.sys.tasks == pre.sys.tasks,
        r.0.sys.config == pre.sys.config,
        r.0.sys.current == pre.sys.current,
        r.0.sys.valid(r.1),
        post == processor_ref::switched_on(r.0, cpu, pre.sys.curr(cpu), r.1),
        work is To <==> pre.sys.curr(cpu) != r.1,
{
    let prev = pre.sys.curr(cpu);
    let mid = choose|mid: KernelView|
        {
            &&& #[trigger] processor_ref::put_back_on::<S>(pre, cpu, mid)
            &&& post == processor_ref::switched_on(
                processor::picked_on(mid, cpu),
                cpu,
                prev,
                processor::next_on(mid, cpu),
            )
            &&& work == run_queue::switch_work(
                processor::picked_on(mid, cpu).sys,
                prev,
                processor::next_on(mid, cpu),
            )
        };
    assert(pre.sys.current[cpu as int] is Some);
    assert(pre.processors[cpu as int] is Some);
    if pre.sys.state(prev) == TaskState::Runable && !pre.sys.inner(prev).is_idle {
        let preempt = pre.sys.config.preempt && pre.sys.inner(prev).preempt_pending;
        lemma_requeued_listed::<S>(pre, cpu, prev, preempt, mid);
    }
    assert(mid.wf() && mid.has_processor(cpu) && mid.sys.tasks == pre.sys.tasks);
    assert(mid.sys.config == pre.sys.config && mid.sys.current == pre.sys.current);
    processor::lemma_picked_on(mid, cpu);
    lemma_picked_on_leaves(mid, cpu);
    (processor::picked_on(mid, cpu), processor::next_on(mid, cpu))
}

/// What a CPU goes over from when it reschedules from the shared run queue, and to whom.
proof fn lemma_resched_from<S: BaseScheduler>(
    pre: SystemView,
    cpu: usize,
    preempt: bool,
    post: SystemView,
    work: Switched,
) -> (r: (SystemView, AxTaskRef))
    requires
        pre.wf(),
        run_queue::can_resched(pre, cpu),
        run_queue::rescheduled::<S>(pre, cpu, preempt, post, work),
    ensures
        r.0.tasks == pre.tasks,
        r.0.config == pre.config,
        r.0.current == pre.current,
        r.0.valid(r.1),
        post == run_queue::switched(r.0, cpu, pre.curr(cpu), r.1),
        work == run_queue::switch_work(r.0, pre.curr(cpu), r.1),
{
    let prev = pre.curr(cpu);
    let (mid, sel, next) = choose|mid: SystemView, sel: SystemView, next: AxTaskRef|
        {
            &&& #[trigger] run_queue::put_back::<S>(pre, cpu, preempt, mid)
            &&& #[trigger] run_queue::chosen::<S>(mid, cpu, next, sel)
            &&& post == run_queue::switched(sel, cpu, prev, next)
            &&& work == run_queue::switch_work(sel, prev, next)
        };
    assert(pre.current[cpu as int] is Some);
    if pre.state(prev) == TaskState::Runable && !pre.inner(prev).is_idle {
        order::lemma_requeued_wf::<S>(pre, prev, preempt, mid);
    }
    assert(mid.tasks == pre.tasks);
    lemma_chosen_frame::<S>(mid, cpu, next, sel);
    (sel, next)
}

/// What rescheduling on a processor changes of the tasks: the preemption of the one that runs is pending no
/// more where tasks can be preempted, and where there are several CPUs it is on the CPU if it was not running
/// before. Everything else of all tasks stays.
pub proof fn lemma_reschedule_changes<S: BaseScheduler>(
    pre: KernelView,
    cpu: usize,
    post: KernelView,
    work: Switched,
)
    requires
        pre.wf(),
        processor_ref::runs_on(pre, cpu),
        pre.sys.slots[pre.sys.current[cpu as int]->0 as int] is Held,
        processor_ref::rescheduled_on::<S>(pre, cpu, post, work),
    ensures
        ({
            let next = post.sys.current[cpu as int]->0;
            let (t, u) = (pre.sys.tasks[next as int], post.sys.tasks[next as int]);
            &&& u == (ScheduleTask {
                on_cpu: u.on_cpu,
                inner: TaskInner { preempt_pending: u.inner.preempt_pending, ..t.inner },
                ..t
            })
            &&& u.inner.preempt_pending == (t.inner.preempt_pending && !pre.sys.config.preempt)
            &&& u.on_cpu == (t.on_cpu || pre.sys.config.smp && work is To)
        }),
{
    let prev = pre.sys.curr(cpu);
    let (sel, next) = lemma_rescheduled_from::<S>(pre, cpu, post, work);
    lemma_switched_on_changes(sel, cpu, prev, next);
}

/// What rescheduling from the shared run queue changes of the task that runs: it is `Running`, and its
/// preemption is pending no more where tasks can be preempted. Everything else of it stays.
pub proof fn lemma_resched_changes<S: BaseScheduler>(
    pre: SystemView,
    cpu: usize,
    preempt: bool,
    post: SystemView,
    work: Switched,
)
    requires
        pre.wf(),
        run_queue::can_resched(pre, cpu),
        run_queue::rescheduled::<S>(pre, cpu, preempt, post, work),
    ensures
        ({
            let next = post.current[cpu as int]->0;
            let (t, u) = (pre.tasks[next as int], post.tasks[next as int]);
            &&& u == (ScheduleTask {
                state: TaskState::Running,
                inner: TaskInner { preempt_pending: u.inner.preempt_pending, ..t.inner },
                ..t
            })
            &&& u.inner.preempt_pending == (t.inner.preempt_pending && !pre.config.preempt)
        }),
{
    let prev = pre.curr(cpu);
    let (sel, next) = lemma_resched_from::<S>(pre, cpu, preempt, post, work);
    lemma_switched_changes(sel, cpu, prev, next);
}

} // verus!
