//! What holds of the kernel as a whole.
use crate::api;
use crate::api::Sleep;
use crate::block;
use crate::config::TimeValue;
use crate::cpumask::CpuMask;
use crate::exit;
use crate::exit::Exit;
use crate::kernel;
use crate::kernel::KernelView;
use crate::order;
use crate::order_on;
use crate::processor;
use crate::processor_ref;
use crate::run_queue;
use crate::sched;
use crate::sched::{BaseScheduler, RemovableScheduler};
use crate::schedule;
use crate::system;
use crate::system::{AxTaskRef, Slot, Switched, SystemView};
use crate::task;
use crate::task::{Allocation, TaskState};
use crate::task_switch;
use crate::wait_queue;
use vstd::prelude::*;

verus! {

/// The task that CPU `cpu` runs is on its way: it is in the state that a task is in while the CPU runs
/// it.
pub open spec fn on_its_way(v: KernelView, cpu: usize) -> bool {
    &&& v.sys.running(cpu)
    &&& v.sys.state(v.sys.curr(cpu)) == if v.has_processor(cpu) {
        TaskState::Runable
    } else {
        TaskState::Running
    }
}

/// No wake-up is lost, and none counts twice: a task that is woken after it has entered a wait queue and
/// before it blocks does not block, and its wake-ups are used up. The waker runs on a CPU that takes its
/// tasks from the same kind of queue. The count of wake-ups must not wrap around.
pub proof fn lemma_no_lost_wakeup<S: BaseScheduler>(
    pre: KernelView,
    cpu: usize,
    waker: usize,
    resched: bool,
    mid: KernelView,
    post: KernelView,
    work: Switched,
)
    requires
        pre.wf(),
        on_its_way(pre, cpu),
        pre.has_processor(waker) == pre.has_processor(cpu),
        pre.sys.inner(pre.sys.curr(cpu)).wakeup_cnt < usize::MAX,
        block::woken::<S>(pre, waker, pre.sys.curr(cpu), resched, mid),
        block::blocked::<S>(mid, cpu, post, work),
    ensures
        work == Switched::Stay,
        post == wait_queue::waiting(mid, cpu),
        post.sys.state(pre.sys.curr(cpu)) == pre.sys.state(pre.sys.curr(cpu)),
        post.sys.inner(pre.sys.curr(cpu)).wakeup_cnt == 0,
{
    let curr = pre.sys.curr(cpu);
    assert(pre.sys.current[cpu as int] == Some(curr));
    assert(mid.sys == run_queue::wakeup_counted(pre.sys, curr));
    assert(mid.sys.inner(curr).wakeup_cnt > 0);
}

/// No CPU has a processor of its own.
pub open spec fn shared_queue_only(v: KernelView) -> bool {
    forall|c: int| 0 <= c < v.processors.len() ==> (#[trigger] v.processors[c]) is None
}

/// No task is in the ready queue of a processor.
pub open spec fn none_on_processors(v: SystemView) -> bool {
    forall|t: int| 0 <= t < v.slots.len() ==> !((#[trigger] v.slots[t]) is Processor)
}

/// Waking the tasks of a queue one after the other keeps order, and wakes all that are blocked.
proof fn lemma_all_woken<S: BaseScheduler>(
    pre: KernelView,
    cpu: usize,
    q: Seq<AxTaskRef>,
    post: KernelView,
)
    requires
        shared_queue_only(pre),
        none_on_processors(pre.sys),
        order::none_running_blocked(pre.sys),
        order::orderly_but(pre.sys, cpu),
        pre.sys.all_valid(q),
        wait_queue::all_woken::<S>(pre, cpu, q, false, post),
    ensures
        post == pre.with_sys(post.sys),
        none_on_processors(post.sys),
        order::none_running_blocked(post.sys),
        order::orderly_but(post.sys, cpu),
        run_queue::waking_keeps(pre.sys, post.sys),
        forall|i: int| 0 <= i < q.len() ==> post.sys.state(#[trigger] q[i]) != TaskState::Blocked,
    decreases q.len(),
{
    if q.len() == 0 {
        assert(run_queue::waking_keeps(pre.sys, pre.sys));
    } else {
        let mid = choose|mid: KernelView|
            wait_queue::all_woken::<S>(pre, cpu, q.drop_last(), false, mid) && #[trigger] block::woken::<
                S,
            >(mid, cpu, q.last(), false, post);
        lemma_all_woken::<S>(pre, cpu, q.drop_last(), mid);
        let task = q.last();
        assert(pre.sys.valid(task));
        assert(!mid.has_processor(cpu));
        order::lemma_woken_kept::<S>(mid.sys, cpu, task, post.sys);
        run_queue::lemma_waking_keeps(pre.sys, mid.sys, post.sys);
        assert forall|i: int| 0 <= i < q.len() implies post.sys.state(#[trigger] q[i])
            != TaskState::Blocked by {
            assert(pre.sys.valid(q[i]));
            if i < q.len() - 1 {
                assert(q.drop_last()[i] == q[i]);
            }
        }
    }
}

/// The end of a task under the shared run queue: it is `Exited` with its code stored, no CPU runs it, it
/// is in no ready queue, nobody can wait for it any more, and nobody who waited for it is blocked. All
/// else is in order.
pub proof fn lemma_exited<S: BaseScheduler>(
    pre: KernelView,
    cpu: usize,
    code: i32,
    post: KernelView,
    r: Exit,
)
    requires
        pre.wf(),
        shared_queue_only(pre),
        order::orderly(pre.sys),
        run_queue::can_resched(pre.sys, cpu),
        !pre.sys.inner(pre.sys.curr(cpu)).is_idle,
        run_queue::exited::<S>(pre, cpu, code, post, r),
        r is Switch,
    ensures
        order::orderly(post.sys),
        post.sys.state(pre.sys.curr(cpu)) == TaskState::Exited,
        post.sys.inner(pre.sys.curr(cpu)).exit_code == code,
        post.sys.slots[pre.sys.curr(cpu) as int] is Held,
        forall|c: int| !order::runs(post.sys, c, pre.sys.curr(cpu)),
        !post.joins.contains_key(pre.sys.curr(cpu)),
        pre.joins.contains_key(pre.sys.curr(cpu)) ==> forall|i: int|
            0 <= i < pre.joins[pre.sys.curr(cpu)].len() ==> post.sys.state(
                #[trigger] pre.joins[pre.sys.curr(cpu)][i],
            ) != TaskState::Blocked,
{
    let curr = pre.sys.curr(cpu);
    assert(pre.sys.current[cpu as int] is Some);
    let ended = pre.with_sys(pre.sys.with_state(curr, TaskState::Exited));
    let (a, b) = choose|a: KernelView, b: KernelView|
        {
            &&& #[trigger] exit::exit_notified::<S>(ended, cpu, curr, a)
            &&& #[trigger] exit::gc_cleared::<S>(a, cpu, curr, b)
            &&& if b.sys.inner(curr).is_init {
                post == (KernelView { exited: Seq::empty(), ..b }) && r == Exit::Terminate
            } else {
                &&& r is Switch
                &&& post == b.with_sys(post.sys)
                &&& run_queue::rescheduled::<S>(
                    run_queue::with_exit_code(b.sys, curr, code),
                    cpu,
                    false,
                    post.sys,
                    r->Switch_0,
                )
            }
        };
    order::lemma_state_changed(pre.sys, cpu, TaskState::Exited);
    assert forall|t: int| 0 <= t < pre.sys.slots.len() implies !((
    #[trigger] pre.sys.slots[t]) is Processor) by {
        if pre.sys.slots[t] is Processor {
            assert(pre.has_processor(pre.sys.slots[t]->Processor_0));
        }
    }
    assert forall|c: int|
        0 <= c < ended.sys.current.len() && (
        #[trigger] ended.sys.current[c]) is Some implies ended.sys.state(ended.sys.current[c]->0)
        != TaskState::Blocked by {
        assert(pre.sys.current[c] is Some);
    }
    // Those who wait are woken.
    let gone = KernelView { joins: pre.joins.remove(curr), ..ended };
    if pre.joins.contains_key(curr) {
        assert(pre.sys.all_valid(pre.joins[curr]));
        assert(ended.sys.all_valid(pre.joins[curr]));
        lemma_all_woken::<S>(gone, cpu, pre.joins[curr], a);
    } else {
        assert(pre.joins.remove(curr) =~= pre.joins);
        assert(run_queue::waking_keeps(ended.sys, a.sys));
    }
    // The task that drops exited tasks is woken.
    let kept = KernelView { exited: a.exited.push(curr), ..a };
    if a.gc_waiters.len() > 0 {
        let first = a.gc_waiters[0];
        assert(pre.sys.valid(pre.gc_waiters[0]));
        assert(!kept.has_processor(cpu));
        order::lemma_woken_kept::<S>(a.sys, cpu, first, b.sys);
    } else {
        assert(run_queue::waking_keeps(a.sys, b.sys));
    }
    run_queue::lemma_waking_keeps(ended.sys, a.sys, b.sys);
    assert(run_queue::kept_by_waking(ended.sys.tasks[curr as int], b.sys.tasks[curr as int]));
    // The next task runs.
    let v = run_queue::with_exit_code(b.sys, curr, code);
    order::lemma_other_order(b.sys, cpu, v);
    order::lemma_rescheduled::<S>(v, cpu, false, post.sys, r->Switch_0);
    assert forall|c: int| !order::runs(post.sys, c, curr) by {
        if order::runs(post.sys, c, curr) {
            assert(post.sys.current[c] is Some);
        }
    }
    if pre.joins.contains_key(curr) {
        let q = pre.joins[curr];
        assert forall|i: int| 0 <= i < q.len() implies post.sys.state(#[trigger] q[i])
            != TaskState::Blocked by {
            assert(pre.sys.valid(q[i]));
            assert(a.sys.state(q[i]) != TaskState::Blocked);
            assert(run_queue::kept_by_waking(
                a.sys.tasks[q[i] as int],
                b.sys.tasks[q[i] as int],
            ));
            assert(v.state(q[i]) != TaskState::Blocked);
        }
    }
}

/// The names of the tasks that a kernel starts with tell the idle task from the others.
proof fn lemma_names()
    ensures
        "main"@ != "idle"@,
        "gc"@ != "idle"@,
{
    reveal_strlit("main");
    reveal_strlit("idle");
    reveal_strlit("gc");
    assert("main"@[0] == 'm');
    assert("idle"@[0] == 'i');
    assert("gc"@[0] == 'g');
}

/// A new task leaves all in order under the shared run queue.
pub proof fn lemma_new_task_order(pre: SystemView, t: task::ScheduleTask, e: sched::Entry)
    requires
        order::orderly(pre),
        sched::countable(pre.tasks.len() + 1),
        e.id == pre.tasks.len(),
        sched::sound(pre.run_queue, e),
        t.state == TaskState::Runable,
    ensures
        order::orderly(
            SystemView {
                tasks: pre.tasks.push(t),
                slots: pre.slots.push(Slot::Held(e)),
                ..pre
            },
        ),
{
    let post = SystemView {
        tasks: pre.tasks.push(t),
        slots: pre.slots.push(Slot::Held(e)),
        ..pre
    };
    assert(post.wf()) by {
        system::lemma_new_slot_sound(pre.run_queue, pre.slots, e);
        assert forall|i: usize| #[trigger]
            sched::listed(post.run_queue, i) <==> (post.valid(i)
                && post.slots[i as int] is RunQueue) by {
            assert(sched::listed(pre.run_queue, i) <==> (pre.valid(i)
                && pre.slots[i as int] is RunQueue));
        }
    }
    assert(order::queue_orderly(post));
    assert(order::cpus_orderly(post));
    assert(order::idle_orderly(post));
}

/// Initializing the first CPU for the shared run queue leaves all in order.
pub proof fn lemma_initialized<S: BaseScheduler>(
    pre: KernelView,
    cpu: usize,
    idle_alloc: Allocation,
    gc_alloc: Allocation,
    main_tls: usize,
    post: KernelView,
)
    requires
        order::orderly(pre.sys),
        pre.sys.run_queue.len() == 0,
        sched::countable(pre.sys.tasks.len() + 3),
        cpu < pre.sys.current.len(),
        pre.sys.current[cpu as int] is None,
        pre.sys.idle[cpu as int] is None,
        run_queue::initialized::<S>(pre, cpu, idle_alloc, gc_alloc, main_tls, post),
    ensures
        order::orderly(post.sys),
        run_queue::can_resched(post.sys, cpu),
        post.sys.run_queue.len() == 1,
{
    lemma_names();
    let idle = pre.sys.tasks.len() as usize;
    let main = (idle + 1) as usize;
    let gc = (idle + 2) as usize;
    let main_task = task::ScheduleTask {
        state: TaskState::Runable,
        ..post.sys.tasks[main as int]
    };
    let a = pre.with_new_task(post.sys.tasks[idle as int], S::initial(idle));
    let b = a.with_new_task(main_task, S::initial(main));
    let c = b.with_new_task(post.sys.tasks[gc as int], S::initial(gc));
    S::initial_id(idle);
    S::initial_id(main);
    S::initial_id(gc);
    system::lemma_held_sound(pre.sys.run_queue, pre.sys.slots, 0);
    lemma_new_task_order(pre.sys, post.sys.tasks[idle as int], S::initial(idle));
    lemma_new_task_order(a.sys, main_task, S::initial(main));
    lemma_new_task_order(b.sys, post.sys.tasks[gc as int], S::initial(gc));
    S::adds_inserts(S::initial(gc), sched::Ready::none(), post.sys.run_queue);
    let x = choose|x: sched::Entry|
        x.id == gc && sched::akin(S::initial(gc), x) && sched::fits(x) && #[trigger] sched::inserted(
            sched::Ready::none(),
            x,
            post.sys.run_queue,
        );
    assert(c.sys.run_queue.list =~= sched::Ready::none().list);
    let d = (SystemView { run_queue: post.sys.run_queue, ..c.sys }).with_slot(
        gc,
        Slot::RunQueue,
    );
    system::lemma_into_run_queue(c.sys, gc, x, d);
    let e = SystemView { idle: d.idle.update(cpu as int, Some(idle)), ..d };
    assert(post.sys == e.with_state(main, TaskState::Running).with_current(cpu, main));
    assert(c.sys.tasks[idle as int].inner.is_idle);
    assert(!c.sys.tasks[main as int].inner.is_idle);
    assert(!c.sys.tasks[gc as int].inner.is_idle);
    assert forall|i: int|
        0 <= i < c.sys.current.len() && (
        #[trigger] c.sys.current[i]) is Some implies c.sys.current[i]->0 < idle by {
        assert(pre.sys.current[i] is Some);
    }
    assert forall|i: int|
        0 <= i < c.sys.idle.len() && (#[trigger] c.sys.idle[i]) is Some implies c.sys.idle[i]->0
        < idle by {
        assert(pre.sys.idle[i] is Some);
    }
    assert(post.sys.wf());
    assert(order::queue_orderly(post.sys));
    assert(order::cpus_orderly(post.sys));
    assert(order::idle_orderly(post.sys));
}

/// Initializing another CPU for the shared run queue leaves all in order.
pub proof fn lemma_initialized_secondary<S: BaseScheduler>(
    pre: KernelView,
    cpu: usize,
    tls_ptr: usize,
    post: KernelView,
)
    requires
        order::orderly(pre.sys),
        sched::countable(pre.sys.tasks.len() + 1),
        cpu < pre.sys.current.len(),
        pre.sys.current[cpu as int] is None,
        pre.sys.idle[cpu as int] is None,
        run_queue::initialized_secondary::<S>(pre, cpu, tls_ptr, post),
    ensures
        order::orderly(post.sys),
        run_queue::can_resched(post.sys, cpu),
{
    let idle = pre.sys.tasks.len() as usize;
    let idle_task = task::ScheduleTask {
        state: TaskState::Runable,
        ..post.sys.tasks[idle as int]
    };
    let a = pre.with_new_task(idle_task, S::initial(idle));
    S::initial_id(idle);
    system::lemma_held_sound(pre.sys.run_queue, pre.sys.slots, 0);
    lemma_new_task_order(pre.sys, idle_task, S::initial(idle));
    let d = SystemView { idle: a.sys.idle.update(cpu as int, Some(idle)), ..a.sys };
    assert(post.sys == d.with_state(idle, TaskState::Running).with_current(cpu, idle));
    assert(a.sys.tasks[idle as int].inner.is_idle);
    assert forall|i: int|
        0 <= i < a.sys.current.len() && (
        #[trigger] a.sys.current[i]) is Some implies a.sys.current[i]->0 < idle by {
        assert(pre.sys.current[i] is Some);
    }
    assert forall|i: int|
        0 <= i < a.sys.idle.len() && (#[trigger] a.sys.idle[i]) is Some implies a.sys.idle[i]->0
        < idle by {
        assert(pre.sys.idle[i] is Some);
    }
    assert(post.sys.wf());
    assert(order::queue_orderly(post.sys));
    assert(order::cpus_orderly(post.sys));
    assert(order::idle_orderly(post.sys));
}

/// A task that is removed from the shared run queue while it waits there: it is `Exited`, in no ready
/// queue, and handed over to be dropped. All else is in order, and the others in the queue come in the same
/// order as before.
pub proof fn lemma_task_removed<S: RemovableScheduler>(
    pre: KernelView,
    cpu: usize,
    task: AxTaskRef,
    post: KernelView,
)
    requires
        pre.wf(),
        shared_queue_only(pre),
        order::orderly(pre.sys),
        pre.sys.valid(task),
        pre.sys.state(task) == TaskState::Runable,
        !pre.sys.inner(task).is_idle,
        exit::can_wake_first(pre, cpu, pre.gc_waiters),
        run_queue::can_remove::<S>(pre),
        run_queue::task_removed::<S>(pre, cpu, task, post),
    ensures
        order::orderly(post.sys),
        post.sys.state(task) == TaskState::Exited,
        post.sys.slots[task as int] is Held,
        post.exited == pre.exited.push(task),
        forall|c: int| !order::runs(post.sys, c, task),
        forall|x: usize, y: usize|
            x != task && y != task && #[trigger] sched::ahead(pre.sys.run_queue, x, y)
                ==> sched::ahead(post.sys.run_queue, x, y),
{
    let ended = pre.with_sys(pre.sys.with_state(task, TaskState::Exited));
    let a = choose|a: KernelView|
        {
            &&& #[trigger] exit::gc_cleared::<S>(ended, cpu, task, a)
            &&& post == a.with_sys(post.sys)
            &&& system::taken_out::<S>(a.sys, task, post.sys)
        };
    assert forall|t: int| 0 <= t < pre.sys.slots.len() implies !((
    #[trigger] pre.sys.slots[t]) is Processor) by {
        if pre.sys.slots[t] is Processor {
            assert(pre.has_processor(pre.sys.slots[t]->Processor_0));
        }
    }
    let kept = KernelView { exited: ended.exited.push(task), ..ended };
    let first = pre.gc_waiters[0];
    let woken = pre.gc_waiters.len() > 0 && ended.sys.state(first) == TaskState::Blocked;
    if pre.gc_waiters.len() > 0 {
        assert(pre.sys.valid(first));
        assert(!kept.has_processor(cpu));
    }
    if woken {
        let ready = ended.sys.with_state(first, TaskState::Runable);
        assert(a.sys == system::queued_as(ready, first, a.sys.run_queue));
        order::lemma_enqueued_wf::<S>(ready, first, a.sys);
        order::lemma_enqueued_ahead::<S>(ready, first, a.sys);
        assert(pre.sys.state(first) == TaskState::Blocked);
    }
    if a.sys.slots[task as int] is RunQueue {
        S::removes_only(a.sys.run_queue, task, post.sys.run_queue);
        run_queue::lemma_removable_ended::<S>(pre, cpu, task, ended, a);
        assert(sched::listed(a.sys.run_queue, task));
        let at = choose|at: int|
            0 <= at < a.sys.run_queue.list.len() && a.sys.run_queue.list[at].id == task
                && post.sys.run_queue.list == #[trigger] a.sys.run_queue.list.remove(at);
        sched::lemma_removed_ahead(a.sys.run_queue, at, post.sys.run_queue);
        system::lemma_taken_out_sound::<S>(
            a.sys,
            task,
            post.sys.slots[task as int]->Held_0,
            post.sys.run_queue,
        );
    }
    assert(post.sys.wf());
    assert forall|t: int| 0 <= t < post.sys.tasks.len() implies {
        &&& (#[trigger] post.sys.tasks[t]).inner.is_idle == pre.sys.tasks[t].inner.is_idle
        &&& post.sys.tasks[t].state == if t == task {
            TaskState::Exited
        } else if woken && t == first {
            TaskState::Runable
        } else {
            pre.sys.tasks[t].state
        }
    } by {
    }
    assert forall|t: int|
        0 <= t < post.sys.slots.len() && pre.sys.slots[t] is Held && !(woken && t == first) implies (
    #[trigger] post.sys.slots[t]) is Held by {
    }
    assert forall|c: int|
        0 <= c < post.sys.current.len() && (#[trigger] post.sys.current[c]) is Some implies {
        &&& post.sys.current[c]->0 != task
        &&& post.sys.slots[post.sys.current[c]->0 as int] is Held
        &&& post.sys.state(post.sys.current[c]->0) == TaskState::Running
    } by {
        assert(pre.sys.current[c] is Some);
    }
    assert(order::queue_orderly(post.sys));
    assert(order::cpus_orderly(post.sys));
    assert(order::idle_orderly(post.sys)) by {
        assert forall|c: int|
            0 <= c < post.sys.idle.len() && (#[trigger] post.sys.idle[c]) is Some implies {
            &&& post.sys.slots[post.sys.idle[c]->0 as int] is Held
            &&& post.sys.tasks[post.sys.idle[c]->0 as int].inner.is_idle
        } by {
            assert(pre.sys.idle[c] is Some);
        }
    }
    assert forall|c: int| !order::runs(post.sys, c, task) by {
        if order::runs(post.sys, c, task) {
            assert(post.sys.current[c] is Some);
        }
    }
}

/// A new task leaves all in order on the processors.
pub proof fn lemma_new_task_order_on(pre: KernelView, t: task::ScheduleTask, e: sched::Entry)
    requires
        order_on::orderly_on(pre),
        sched::countable(pre.sys.tasks.len() + 1),
        e.id == pre.sys.tasks.len(),
        sched::sound(pre.sys.run_queue, e),
        t.state == TaskState::Runable,
    ensures
        order_on::orderly_on(pre.with_new_task(t, e)),
{
    let post = pre.with_new_task(t, e);
    kernel::lemma_new_task(pre, t, e);
    assert(order_on::queues_orderly(post));
    assert(order_on::cpus_apart(post));
    assert(order_on::idles_orderly(post)) by {
        assert forall|c: int|
            0 <= c < post.processors.len() && (#[trigger] post.processors[c]) is Some implies {
            &&& post.sys.slots[post.processors[c]->0.idle as int] is Held
            &&& post.sys.tasks[post.processors[c]->0.idle as int].inner.is_idle
            &&& post.sys.tasks[post.processors[c]->0.idle as int].state == TaskState::Runable
        } by {
            assert(pre.processors[c] is Some);
        }
    }
}

/// Giving CPU `cpu` a processor and a first task leaves all in order.
proof fn lemma_started<S: BaseScheduler>(
    pre: KernelView,
    cpu: usize,
    idle: AxTaskRef,
    gc: AxTaskRef,
    first: AxTaskRef,
    free_stack: usize,
    post: KernelView,
)
    requires
        order_on::orderly_on(pre),
        cpu < pre.processors.len(),
        pre.processors[cpu as int] is None,
        pre.sys.valid(idle),
        pre.sys.valid(gc),
        pre.sys.valid(first),
        idle != gc,
        first != gc,
        pre.sys.slots[idle as int] is Held,
        pre.sys.slots[first as int] is Held,
        pre.sys.slots[gc as int] == Slot::Held(S::initial(gc)),
        pre.sys.inner(idle).is_idle,
        pre.sys.state(idle) == TaskState::Runable,
        pre.sys.state(first) == TaskState::Runable,
        pre.sys.state(gc) == TaskState::Runable,
        !pre.sys.inner(gc).is_idle,
        first == idle || !pre.sys.inner(first).is_idle,
        forall|c: int|
            0 <= c < pre.sys.current.len() && (#[trigger] pre.sys.current[c]) is Some ==> {
                &&& pre.sys.current[c]->0 != idle
                &&& pre.sys.current[c]->0 != gc
                &&& pre.sys.current[c]->0 != first
            },
        forall|c: int|
            0 <= c < pre.processors.len() && (#[trigger] pre.processors[c]) is Some
                ==> pre.processors[c]->0.idle != idle && pre.processors[c]->0.idle != first,
        post.wf(),
        processor_ref::started::<S>(pre, cpu, idle, gc, first, free_stack, post),
    ensures
        order_on::orderly_on(post),
        processor_ref::runs_on(post, cpu),
{
    assert forall|c: int|
        0 <= c < post.processors.len() && c != cpu && (
        #[trigger] post.processors[c]) is Some implies pre.processors[c] is Some
        && post.processors[c] == pre.processors[c] by {
    }
    assert(post.proc(cpu).idle == idle);
    assert forall|c: int|
        0 <= c < post.sys.current.len() && (#[trigger] post.sys.current[c]) is Some implies {
        &&& post.sys.slots[post.sys.current[c]->0 as int] is Held
        &&& post.sys.tasks[post.sys.current[c]->0 as int].state == TaskState::Runable
        &&& post.processors[c] is Some
        &&& post.sys.tasks[post.sys.current[c]->0 as int].inner.is_idle ==> post.processors[c]->0.idle
            == post.sys.current[c]->0
    } by {
        if c != cpu {
            assert(pre.sys.current[c] is Some);
        }
    }
    assert forall|c: int|
        0 <= c < post.processors.len() && (#[trigger] post.processors[c]) is Some implies {
        &&& post.sys.slots[post.processors[c]->0.idle as int] is Held
        &&& post.sys.tasks[post.processors[c]->0.idle as int].inner.is_idle
        &&& post.sys.tasks[post.processors[c]->0.idle as int].state == TaskState::Runable
    } by {
        if c != cpu {
            assert(pre.processors[c] is Some);
        }
    }
    assert(order_on::queues_orderly(post));
    assert(order_on::cpus_apart(post)) by {
        assert forall|c: int, d: int|
            0 <= c < post.sys.current.len() && 0 <= d < post.sys.current.len() && c != d && (
            #[trigger] post.sys.current[c]) is Some && (
            #[trigger] post.sys.current[d]) is Some implies post.sys.current[c]
            != post.sys.current[d] by {
            if c != cpu {
                assert(pre.sys.current[c] is Some);
            }
            if d != cpu {
                assert(pre.sys.current[d] is Some);
            }
        }
    }
    assert(order_on::idles_orderly(post)) by {
        assert forall|c: int, d: int|
            0 <= c < post.processors.len() && 0 <= d < post.sys.current.len() && c != d && (
            #[trigger] post.processors[c]) is Some && (
            #[trigger] post.sys.current[d]) is Some implies post.processors[c]->0.idle
            != post.sys.current[d]->0 by {
            if c != cpu {
                assert(pre.processors[c] is Some);
            }
            if d != cpu {
                assert(pre.sys.current[d] is Some);
            }
        }
    }
}

/// Initializing the processor of the first CPU leaves all in order. The task that runs already is no
/// thread, and where tasks are coroutines one free stack is kept ready.
pub proof fn lemma_initialized_on<S: BaseScheduler>(
    pre: KernelView,
    cpu: usize,
    idle_alloc: Allocation,
    gc_alloc: Allocation,
    main_tls: usize,
    free_stack: usize,
    post: KernelView,
)
    requires
        order_on::orderly_on(pre),
        sched::countable(pre.sys.tasks.len() + 3),
        cpu < pre.processors.len(),
        pre.processors[cpu as int] is None,
        post.wf(),
        processor_ref::initialized_on::<S>(
            pre,
            cpu,
            idle_alloc,
            gc_alloc,
            main_tls,
            free_stack,
            post,
        ),
    ensures
        order_on::orderly_on(post),
        processor_ref::runs_on(post, cpu),
        !post.sys.inner(post.sys.curr(cpu)).is_thread,
        pre.sys.config.coroutine ==> post.proc(cpu).stacks == seq![free_stack],
{
    lemma_names();
    let idle = pre.sys.tasks.len() as usize;
    let main = (idle + 1) as usize;
    let gc = (idle + 2) as usize;
    let a = pre.with_new_task(post.sys.tasks[idle as int], S::initial(idle));
    let b = a.with_new_task(post.sys.tasks[main as int], S::initial(main));
    let c = b.with_new_task(post.sys.tasks[gc as int], S::initial(gc));
    S::initial_id(idle);
    S::initial_id(main);
    S::initial_id(gc);
    system::lemma_held_sound(pre.sys.run_queue, pre.sys.slots, 0);
    lemma_new_task_order_on(pre, post.sys.tasks[idle as int], S::initial(idle));
    lemma_new_task_order_on(a, post.sys.tasks[main as int], S::initial(main));
    lemma_new_task_order_on(b, post.sys.tasks[gc as int], S::initial(gc));
    lemma_names_before(pre, c, idle);
    lemma_started::<S>(c, cpu, idle, gc, main, free_stack, post);
}

/// Initializing the processor of another CPU leaves all in order.
pub proof fn lemma_initialized_secondary_on<S: BaseScheduler>(
    pre: KernelView,
    cpu: usize,
    gc_alloc: Allocation,
    tls_ptr: usize,
    free_stack: usize,
    post: KernelView,
)
    requires
        order_on::orderly_on(pre),
        sched::countable(pre.sys.tasks.len() + 2),
        cpu < pre.processors.len(),
        pre.processors[cpu as int] is None,
        post.wf(),
        processor_ref::initialized_secondary_on::<S>(pre, cpu, gc_alloc, tls_ptr, free_stack, post),
    ensures
        order_on::orderly_on(post),
        processor_ref::runs_on(post, cpu),
{
    lemma_names();
    let idle = pre.sys.tasks.len() as usize;
    let gc = (idle + 1) as usize;
    let a = pre.with_new_task(post.sys.tasks[idle as int], S::initial(idle));
    let b = a.with_new_task(post.sys.tasks[gc as int], S::initial(gc));
    S::initial_id(idle);
    S::initial_id(gc);
    system::lemma_held_sound(pre.sys.run_queue, pre.sys.slots, 0);
    lemma_new_task_order_on(pre, post.sys.tasks[idle as int], S::initial(idle));
    lemma_new_task_order_on(a, post.sys.tasks[gc as int], S::initial(gc));
    lemma_names_before(pre, b, idle);
    lemma_started::<S>(b, cpu, idle, gc, idle, free_stack, post);
}

/// Whoever ran or was an idle task before new tasks were made is none of them.
proof fn lemma_names_before(pre: KernelView, post: KernelView, first: AxTaskRef)
    requires
        pre.wf(),
        first == pre.sys.tasks.len(),
        post.sys.current == pre.sys.current,
        post.processors == pre.processors,
    ensures
        forall|c: int|
            0 <= c < post.sys.current.len() && (#[trigger] post.sys.current[c]) is Some
                ==> post.sys.current[c]->0 < first,
        forall|c: int|
            0 <= c < post.processors.len() && (#[trigger] post.processors[c]) is Some
                ==> post.processors[c]->0.idle < first,
{
    assert forall|c: int|
        0 <= c < post.sys.current.len() && (
        #[trigger] post.sys.current[c]) is Some implies post.sys.current[c]->0 < first by {
        assert(pre.sys.current[c] is Some);
    }
    assert forall|c: int|
        0 <= c < post.processors.len() && (
        #[trigger] post.processors[c]) is Some implies post.processors[c]->0.idle < first by {
        assert(pre.processors[c] is Some);
    }
}

/// A spawned task can run and is in the ready queue of a processor, and all is in order. The name of idle
/// tasks is theirs.
pub proof fn lemma_spawned<S: BaseScheduler>(
    pre: KernelView,
    name: Seq<char>,
    stack_size: usize,
    alloc: Allocation,
    task: AxTaskRef,
    post: KernelView,
)
    requires
        order_on::orderly_on(pre),
        sched::countable(pre.sys.tasks.len() + 1),
        name != "idle"@,
        processor_ref::can_select(pre, CpuMask::first(pre.processors.len() as usize)),
        api::spawned::<S>(pre, name, stack_size, alloc, task, post),
    ensures
        order_on::orderly_on(post),
        post.sys.state(task) == TaskState::Runable,
        post.sys.slots[task as int] is Processor,
        post.joins.contains_key(task),
{
    let t = post.sys.tasks[task as int];
    let mask = CpuMask::first(pre.processors.len() as usize);
    let made = pre.with_new_task(t, S::initial(task));
    S::initial_id(task);
    system::lemma_held_sound(pre.sys.run_queue, pre.sys.slots, 0);
    lemma_new_task_order_on(pre, t, S::initial(task));
    let (index, mid) = choose|index: usize, mid: KernelView|
        {
            &&& #[trigger] processor::selected(made, mask, index, mid)
            &&& processor::enqueued_on::<S>(mid, index, task, post)
        };
    processor::lemma_selected(made, mask, index, mid);
    assert(pre.processors[index as int] is Some);
    assert(mid == (KernelView { rotor: mid.rotor, ..made }));
    order_on::lemma_rotor(made, mid.rotor, -1);
    assert forall|c: int| c != -1 implies !order::runs(mid.sys, c, task) by {
        if order::runs(mid.sys, c, task) {
            assert(pre.sys.current[c] is Some);
        }
    }
    order_on::lemma_enqueued_on::<S>(mid, index, task, post, -1);
}

/// A task that sleeps is blocked until it is woken: no CPU runs it, and it is in no ready queue. All else
/// is in order.
pub proof fn lemma_asleep<S: BaseScheduler>(
    pre: KernelView,
    cpu: usize,
    deadline: TimeValue,
    post: KernelView,
    r: Sleep,
)
    requires
        order_on::orderly_on(pre),
        processor_ref::runs_on(pre, cpu),
        api::can_sleep(pre, cpu),
        api::asleep::<S>(pre, cpu, deadline, post, r),
        r is Alarm,
    ensures
        order_on::orderly_on(post),
        r->Alarm_0.task == pre.sys.curr(cpu),
        r->Alarm_0.deadline == deadline,
        post.sys.state(pre.sys.curr(cpu)) == TaskState::Blocked,
        post.sys.slots[pre.sys.curr(cpu) as int] is Held,
        forall|c: int| !order::runs(post.sys, c, pre.sys.curr(cpu)),
{
    let curr = pre.sys.curr(cpu);
    assert(pre.sys.current[cpu as int] is Some);
    order_on::lemma_own_state(pre, cpu, TaskState::Blocking);
    order_on::lemma_scheduled::<S>(api::blocking(pre, cpu), cpu, post, r->Alarm_1);
    assert forall|c: int| !order::runs(post.sys, c, curr) by {
        if order::runs(post.sys, c, curr) {
            assert(post.sys.current[c] is Some);
        }
    }
}

/// When a switch is finished, the task that the CPU came from is on no CPU, its state is not locked, and
/// no switch is under way; the CPU runs the same task as before.
pub proof fn lemma_switch_finished<S: BaseScheduler>(
    pre: KernelView,
    cpu: usize,
    mid: KernelView,
    work: Switched,
)
    requires
        order_on::orderly_on_but(pre, cpu as int),
        processor_ref::runs_on(pre, cpu),
        schedule::scheduled::<S>(pre, cpu, mid, work),
        work is To,
    ensures
        mid.proc(cpu).prev == Some(pre.sys.curr(cpu)),
        ({
            let post = processor_ref::switch_finished(mid, cpu);
            let prev = post.sys.tasks[pre.sys.curr(cpu) as int];
            &&& !prev.state_locked
            &&& !prev.on_cpu
            &&& post.proc(cpu).prev is None
            &&& post.sys.current == mid.sys.current
        }),
{
    order_on::lemma_scheduled::<S>(pre, cpu, mid, work);
    let prev = pre.sys.curr(cpu);
    assert(pre.sys.current[cpu as int] is Some);
    let sel = processor::picked_on(pre, cpu);
    let (v, next) = choose|v: KernelView, next: AxTaskRef|
        {
            &&& #[trigger] schedule::settled::<S>(
                sel,
                cpu,
                processor::next_on(pre, cpu),
                v,
                next,
            )
            &&& mid == schedule::moved(v, cpu, prev, next)
            &&& work == schedule::move_work(v.sys, prev, next)
        };
    order_on::lemma_scheduled_frame::<S>(pre, cpu, mid, work);
    assert(mid.processors[cpu as int] is Some);
}

/// Waking a task that waits already changes nothing: after a first wake-up the task can run, and was put
/// into a ready queue if it was blocked; until it runs, a second one leaves all as it is.
pub proof fn lemma_woken_twice<S: BaseScheduler>(
    pre: KernelView,
    task: AxTaskRef,
    mid: KernelView,
    post: KernelView,
)
    requires
        order_on::orderly_on(pre),
        pre.sys.valid(task),
        pre.sys.state(task) == TaskState::Blocked ==> processor_ref::can_select(
            pre,
            pre.sys.tasks[task as int].cpumask,
        ),
        schedule::woken_up::<S>(pre, task, mid),
        schedule::woken_up::<S>(mid, task, post),
    ensures
        mid.sys.state(task) == TaskState::Runable,
        pre.sys.state(task) == TaskState::Blocked ==> {
            &&& pre.sys.slots[task as int] is Held
            &&& mid.sys.slots[task as int] is Processor
            &&& sched::listed(mid.proc(mid.sys.slots[task as int]->Processor_0).ready, task)
            &&& sched::distinct(mid.proc(mid.sys.slots[task as int]->Processor_0).ready)
        },
        post == mid,
{
    assert forall|c: int| order::runs(pre.sys, c, task) implies pre.sys.state(task)
        != TaskState::Blocked by {
        assert(pre.sys.current[c] is Some);
    }
    order_on::lemma_woken_up::<S>(pre, task, mid, -1);
    if pre.sys.state(task) == TaskState::Blocked {
        assert(pre.sys.slots[task as int] is Held);
        let c = mid.sys.slots[task as int]->Processor_0;
        assert(mid.has_processor(c));
        assert(mid.processors[c as int] is Some);
        assert(kernel::processor_wf(mid.sys, c, mid.proc(c)));
    }
}

/// A task that is woken while it is about to block does not block: no ready queue changes, and when its
/// CPU schedules, the task can run on.
pub proof fn lemma_woken_while_blocking<S: BaseScheduler>(
    pre: KernelView,
    cpu: usize,
    mid: KernelView,
    post: KernelView,
    work: Switched,
)
    requires
        pre.wf(),
        processor_ref::runs_on(pre, cpu),
        pre.sys.state(pre.sys.curr(cpu)) == TaskState::Blocking,
        schedule::woken_up::<S>(pre, pre.sys.curr(cpu), mid),
        schedule::scheduled::<S>(mid, cpu, post, work),
    ensures
        mid == pre.with_sys(pre.sys.with_state(pre.sys.curr(cpu), TaskState::Runable)),
        mid.processors == pre.processors,
        mid.sys.run_queue == pre.sys.run_queue,
        post.sys.state(pre.sys.curr(cpu)) == TaskState::Runable,
{
    let curr = pre.sys.curr(cpu);
    assert(pre.sys.current[cpu as int] is Some);
    kernel::lemma_sys_changed(pre, mid.sys);
    order_on::lemma_scheduled_frame::<S>(mid, cpu, post, work);
}

/// Where the task `task` goes on is the same in both kernels.
pub open spec fn context_kept(pre: KernelView, post: KernelView, task: AxTaskRef) -> bool {
    &&& post.sys.inner(task).is_thread == pre.sys.inner(task).is_thread
    &&& post.sys.inner(task).ctx_ref == pre.sys.inner(task).ctx_ref
}

/// An interrupted task goes on where it was interrupted: whatever happens in the meantime, as long as it
/// leaves the context of the task alone, the next time that a CPU runs the task its context is restored.
/// From then on no context is saved for it, so that the next interruption overwrites none.
pub proof fn lemma_interrupted_resumes(
    pre: KernelView,
    cpu: usize,
    ctx_ref: usize,
    spare: usize,
    post: KernelView,
    on: usize,
)
    requires
        pre.sys.running(cpu),
        pre.sys.valid(pre.sys.curr(cpu)),
        post.wf(),
        processor_ref::runs_on(post, on),
        post.proc(on).prev is Some,
        context_kept(
            task_switch::preempted(pre, cpu, ctx_ref, spare),
            post,
            pre.sys.curr(cpu),
        ),
        post.sys.curr(on) == pre.sys.curr(cpu),
    ensures
        task_switch::next_step(post.sys, post.sys.curr(on)) == task_switch::Next::Restore(ctx_ref),
        !task_switch::resumed(post, on).sys.inner(pre.sys.curr(cpu)).is_thread,
        task_switch::resumed(post, on).proc(on).curr_stack is None,
{
    assert(post.sys.current[on as int] is Some);
}

/// A task that is left in the middle goes on there, in the same way, from the place where it keeps its
/// context.
pub proof fn lemma_left_resumes(
    pre: KernelView,
    cpu: usize,
    spare: usize,
    post: KernelView,
    on: usize,
)
    requires
        pre.sys.running(cpu),
        pre.sys.valid(pre.sys.curr(cpu)),
        context_kept(task_switch::left(pre, cpu, spare), post, pre.sys.curr(cpu)),
        post.sys.curr(on) == pre.sys.curr(cpu),
    ensures
        task_switch::next_step(post.sys, post.sys.curr(on)) == task_switch::Next::Restore(
            pre.sys.inner(pre.sys.curr(cpu)).ctx_ref,
        ),
{
}

/// Scheduling leaves the contexts of all tasks alone.
pub proof fn lemma_scheduled_context<S: BaseScheduler>(
    pre: KernelView,
    cpu: usize,
    post: KernelView,
    work: Switched,
    task: AxTaskRef,
)
    requires
        pre.wf(),
        processor_ref::runs_on(pre, cpu),
        pre.sys.valid(task),
        schedule::scheduled::<S>(pre, cpu, post, work),
    ensures
        context_kept(pre, post, task),
{
    order_on::lemma_scheduled_frame::<S>(pre, cpu, post, work);
    assert(order_on::kept_by_scheduling(
        pre.sys.tasks[task as int],
        post.sys.tasks[task as int],
    ));
}

/// Waking tasks leaves the contexts of all tasks alone.
pub proof fn lemma_waking_context(pre: KernelView, post: KernelView, task: AxTaskRef)
    requires
        pre.sys.valid(task),
        block::waking_keeps(pre, post),
    ensures
        context_kept(pre, post, task),
{
    assert(run_queue::kept_by_waking(pre.sys.tasks[task as int], post.sys.tasks[task as int]));
}

/// A timer tick leaves the contexts of all tasks alone.
pub proof fn lemma_ticked_context<S: BaseScheduler>(
    pre: KernelView,
    cpu: usize,
    ready: sched::Ready,
    post: KernelView,
    task: AxTaskRef,
)
    requires
        pre.wf(),
        pre.sys.running(cpu),
        pre.sys.valid(task),
        run_queue::ticked::<S>(pre.sys, cpu, ready, post.sys),
    ensures
        context_kept(pre, post, task),
{
    assert(pre.sys.current[cpu as int] is Some);
}

/// A new task leaves the contexts of all others alone.
pub proof fn lemma_spawned_context<S: BaseScheduler>(
    pre: KernelView,
    name: Seq<char>,
    stack_size: usize,
    alloc: Allocation,
    new: AxTaskRef,
    post: KernelView,
    task: AxTaskRef,
)
    requires
        pre.wf(),
        pre.sys.tasks.len() <= usize::MAX,
        processor_ref::can_select(pre, CpuMask::first(pre.processors.len() as usize)),
        api::spawned::<S>(pre, name, stack_size, alloc, new, post),
        pre.sys.valid(task),
    ensures
        context_kept(pre, post, task),
{
    api::lemma_spawned_keeps::<S>(pre, name, stack_size, alloc, new, post);
    assert(post.sys.tasks[task as int] == pre.sys.tasks[task as int]);
}

/// Interrupting, leaving or resuming a task leaves the contexts of all others alone.
pub proof fn lemma_other_context(
    pre: KernelView,
    cpu: usize,
    ctx_ref: usize,
    spare: usize,
    task: AxTaskRef,
)
    requires
        pre.wf(),
        processor_ref::runs_on(pre, cpu),
        pre.sys.valid(task),
        task != pre.sys.curr(cpu),
    ensures
        context_kept(pre, task_switch::preempted(pre, cpu, ctx_ref, spare), task),
        context_kept(pre, task_switch::left(pre, cpu, spare), task),
        pre.proc(cpu).prev is Some ==> context_kept(pre, task_switch::resumed(pre, cpu), task),
{
    assert(pre.sys.current[cpu as int] is Some);
    assert(pre.processors[cpu as int] is Some);
}

/// All four changes between coroutines and threads: when a CPU goes over from one task to another, the
/// other one goes on as it did last, whatever the first one is. A thread goes on from its saved context,
/// and a coroutine is polled.
pub proof fn lemma_goes_on<S: BaseScheduler>(
    pre: KernelView,
    cpu: usize,
    post: KernelView,
    work: Switched,
)
    requires
        pre.wf(),
        post.wf(),
        processor_ref::runs_on(pre, cpu),
        schedule::scheduled::<S>(pre, cpu, post, work),
        work is To,
    ensures
        post.sys.curr(cpu) == work->To_0.next,
        task_switch::next_step(post.sys, post.sys.curr(cpu)) == task_switch::next_step(
            pre.sys,
            work->To_0.next,
        ),
{
    let prev = pre.sys.curr(cpu);
    let sel = processor::picked_on(pre, cpu);
    let (mid, next) = choose|mid: KernelView, next: AxTaskRef|
        {
            &&& #[trigger] schedule::settled::<S>(
                sel,
                cpu,
                processor::next_on(pre, cpu),
                mid,
                next,
            )
            &&& post == schedule::moved(mid, cpu, prev, next)
            &&& work == schedule::move_work(mid.sys, prev, next)
        };
    assert(pre.sys.current[cpu as int] is Some);
    processor::lemma_picked_on(pre, cpu);
    assert(post.sys.curr(cpu) == next);
    lemma_scheduled_context::<S>(pre, cpu, post, work, next);
}

} // verus!
