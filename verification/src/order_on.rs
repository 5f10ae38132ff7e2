//! What every operation on the processors keeps.
use crate::block;
use crate::exit;
use crate::exit::Exit;
use crate::kernel;
use crate::kernel::KernelView;
use crate::order::{none_running_blocked, runs};
use crate::processor;
use crate::processor::ProcessorView;
use crate::processor_ref;
use crate::run_queue;
use crate::sched;
use crate::sched::{BaseScheduler, Entry, Ready};
use crate::schedule;
use crate::system;
use crate::system::{AxTaskRef, Slot, Switched, SystemView};
use crate::task::{ScheduleTask, TaskInner, TaskState};
use crate::wait_queue;
use vstd::prelude::*;

verus! {

/// A task in a ready queue can run. No idle task is in a ready queue, blocked or about to block.
pub open spec fn queues_orderly(v: KernelView) -> bool {
    &&& forall|t: int|
        0 <= t < v.sys.slots.len() && !((#[trigger] v.sys.slots[t]) is Held) ==> {
            &&& v.sys.slots[t] is Processor
            &&& v.sys.tasks[t].state == TaskState::Runable
            &&& !v.sys.tasks[t].inner.is_idle
        }
    &&& forall|t: int|
        0 <= t < v.sys.tasks.len() && ((#[trigger] v.sys.tasks[t]).state == TaskState::Blocked
            || v.sys.tasks[t].state == TaskState::Blocking) ==> !v.sys.tasks[t].inner.is_idle
}

/// A CPU that runs a task has a processor, and no task runs on two CPUs. An idle task runs on the CPU
/// whose idle task it is.
pub open spec fn cpus_apart(v: KernelView) -> bool {
    &&& forall|c: int|
        0 <= c < v.sys.current.len() && (#[trigger] v.sys.current[c]) is Some
            ==> v.processors[c] is Some
    &&& forall|c: int, d: int|
        0 <= c < v.sys.current.len() && 0 <= d < v.sys.current.len() && c != d && (
        #[trigger] v.sys.current[c]) is Some && (#[trigger] v.sys.current[d]) is Some
            ==> v.sys.current[c] != v.sys.current[d]
    &&& forall|c: int|
        0 <= c < v.sys.current.len() && (#[trigger] v.sys.current[c]) is Some
            && v.sys.tasks[v.sys.current[c]->0 as int].inner.is_idle ==> v.processors[c]->0.idle
            == v.sys.current[c]->0
}

/// A running task is in no ready queue, but perhaps that of CPU `cpu`.
pub open spec fn others_held(v: KernelView, cpu: int) -> bool {
    forall|c: int|
        0 <= c < v.sys.current.len() && c != cpu && (#[trigger] v.sys.current[c]) is Some
            ==> v.sys.slots[v.sys.current[c]->0 as int] is Held
}

/// A running task is `Runable`, but perhaps that of CPU `cpu`.
pub open spec fn others_runable(v: KernelView, cpu: int) -> bool {
    forall|c: int|
        0 <= c < v.sys.current.len() && c != cpu && (#[trigger] v.sys.current[c]) is Some
            ==> v.sys.tasks[v.sys.current[c]->0 as int].state == TaskState::Runable
}

/// The idle task of a CPU can run, is in no ready queue and runs on no other CPU.
pub open spec fn idles_orderly(v: KernelView) -> bool {
    &&& forall|c: int|
        0 <= c < v.processors.len() && (#[trigger] v.processors[c]) is Some ==> {
            &&& v.sys.slots[v.processors[c]->0.idle as int] is Held
            &&& v.sys.tasks[v.processors[c]->0.idle as int].inner.is_idle
            &&& v.sys.tasks[v.processors[c]->0.idle as int].state == TaskState::Runable
        }
    &&& forall|c: int, d: int|
        0 <= c < v.processors.len() && 0 <= d < v.sys.current.len() && c != d && (
        #[trigger] v.processors[c]) is Some && (#[trigger] v.sys.current[d]) is Some
            ==> v.processors[c]->0.idle != v.sys.current[d]->0
    &&& forall|c: int, d: int|
        0 <= c < v.processors.len() && 0 <= d < v.processors.len() && c != d && (
        #[trigger] v.processors[c]) is Some && (#[trigger] v.processors[d]) is Some
            ==> v.processors[c]->0.idle != v.processors[d]->0.idle
}

/// Between giving up its task and taking the next one, CPU `cpu` may have a task in its ready queue that
/// it still counts as its own.
pub open spec fn between_on(v: KernelView, cpu: int) -> bool {
    &&& v.wf()
    &&& queues_orderly(v)
    &&& cpus_apart(v)
    &&& others_held(v, cpu)
    &&& others_runable(v, cpu)
    &&& idles_orderly(v)
}

/// The tasks, the ready queues and the CPUs are in order, but perhaps for the state of the task of CPU
/// `cpu`.
pub open spec fn orderly_on_but(v: KernelView, cpu: int) -> bool {
    between_on(v, cpu) && others_held(v, -1)
}

/// The tasks, the ready queues and the CPUs are in order: a task in a ready queue can run, a running
/// task can run and is in no ready queue, and no two CPUs run the same task.
pub open spec fn orderly_on(v: KernelView) -> bool {
    between_on(v, -1)
}

/// Putting a task that can run into the ready queue of CPU `cpu`.
proof fn lemma_queued_on(
    pre: KernelView,
    cpu: usize,
    task: AxTaskRef,
    x: Entry,
    ready: Ready,
    me: int,
)
    requires
        between_on(pre, me),
        pre.has_processor(cpu),
        pre.sys.valid(task),
        pre.sys.slots[task as int] is Held,
        pre.sys.state(task) == TaskState::Runable,
        !pre.sys.inner(task).is_idle,
        forall|c: int| c != me ==> !runs(pre.sys, c, task),
        x.id == task,
        sched::akin(pre.sys.slots[task as int]->Held_0, x),
        sched::fits(x),
        sched::start(ready) == 0,
        sched::inserted(pre.proc(cpu).ready, x, ready),
    ensures
        between_on(processor::queued_on(pre, cpu, task, ready), me),
{
    let post = processor::queued_on(pre, cpu, task, ready);
    processor::lemma_into_processor(pre, cpu, task, x, ready);
    assert forall|c: int|
        0 <= c < post.processors.len() && (#[trigger] post.processors[c]) is Some implies {
        &&& pre.processors[c] is Some
        &&& post.processors[c]->0.idle == pre.processors[c]->0.idle
    } by {
    }
    assert forall|c: int|
        0 <= c < post.sys.current.len() && c != me && (
        #[trigger] post.sys.current[c]) is Some implies post.sys.slots[post.sys.current[c]->0 as int]
        is Held by {
        assert(!runs(pre.sys, c, task));
        assert(pre.sys.current[c] is Some);
    }
    assert(idles_orderly(post));
    assert(queues_orderly(post));
    assert(cpus_apart(post));
}

/// Taking the next task for CPU `cpu`: it has its item, and no other CPU runs it.
proof fn lemma_next_on(v: KernelView, cpu: usize)
    requires
        between_on(v, cpu as int),
        v.has_processor(cpu),
    ensures
        ({
            let next = processor::next_on(v, cpu);
            let sel = processor::picked_on(v, cpu);
            &&& between_on(sel, cpu as int)
            &&& sel.has_processor(cpu)
            &&& sel.sys.tasks == v.sys.tasks
            &&& sel.sys.current == v.sys.current
            &&& sel.sys.config == v.sys.config
            &&& sel.proc(cpu).idle == v.proc(cpu).idle
            &&& sel.sys.valid(next)
            &&& sel.sys.slots[next as int] is Held
            &&& sel.sys.state(next) == TaskState::Runable
            &&& next == v.proc(cpu).idle || !sel.sys.inner(next).is_idle
            &&& forall|c: int| c != cpu ==> !runs(sel.sys, c, next)
            &&& forall|t: int|
                0 <= t < v.sys.slots.len() && v.sys.slots[t] is Held ==> (
                #[trigger] sel.sys.slots[t]) is Held && t != next || next == v.proc(cpu).idle
        }),
{
    let next = processor::next_on(v, cpu);
    let sel = processor::picked_on(v, cpu);
    let p = v.proc(cpu);
    processor::lemma_picked_on(v, cpu);
    assert(v.processors[cpu as int] is Some);
    if p.ready.len() > 0 {
        assert(sched::listed(p.ready, next));
        assert(v.sys.slots[next as int] == Slot::Processor(cpu));
        assert forall|c: int|
            0 <= c < sel.processors.len() && (#[trigger] sel.processors[c]) is Some implies {
            &&& v.processors[c] is Some
            &&& sel.processors[c]->0.idle == v.processors[c]->0.idle
        } by {
        }
        assert forall|c: int| c != cpu implies !runs(sel.sys, c, next) by {
            if runs(sel.sys, c, next) {
                assert(v.sys.current[c] is Some);
            }
        }
        assert(idles_orderly(sel));
        assert(queues_orderly(sel));
        assert(cpus_apart(sel));
    } else {
        assert forall|c: int| c != cpu implies !runs(sel.sys, c, next) by {
            if runs(sel.sys, c, next) {
                assert(v.sys.current[c] is Some);
            }
        }
    }
}

/// CPU `cpu` takes a task that is in order to be run.
proof fn lemma_taken(v: KernelView, cpu: usize, next: AxTaskRef, post: KernelView)
    requires
        between_on(v, cpu as int),
        v.has_processor(cpu),
        cpu < v.sys.current.len(),
        v.sys.valid(next),
        v.sys.slots[next as int] is Held,
        v.sys.state(next) == TaskState::Runable,
        next == v.proc(cpu).idle || !v.sys.inner(next).is_idle,
        forall|c: int| c != cpu ==> !runs(v.sys, c, next),
        post.wf(),
        post.sys.slots == v.sys.slots,
        post.sys.current == v.sys.current.update(cpu as int, Some(next)),
        post.sys.tasks.len() == v.sys.tasks.len(),
        forall|t: int|
            #![trigger post.sys.tasks[t]]
            0 <= t < v.sys.tasks.len() ==> post.sys.tasks[t].state == v.sys.tasks[t].state
                && post.sys.tasks[t].inner.is_idle == v.sys.tasks[t].inner.is_idle,
        post.processors.len() == v.processors.len(),
        forall|c: int|
            #![trigger post.processors[c]]
            0 <= c < v.processors.len() ==> (post.processors[c] is Some <==> v.processors[c] is Some)
                && (v.processors[c] is Some ==> post.processors[c]->0.idle
                == v.processors[c]->0.idle),
    ensures
        orderly_on(post),
{
    assert(v.processors[cpu as int] is Some);
    assert forall|c: int| 0 <= c < post.sys.current.len() && c != cpu implies (
    #[trigger] post.sys.current[c]) == v.sys.current[c] && post.sys.current[c] != Some(next) by {
        assert(!runs(v.sys, c, next));
    }
    assert(queues_orderly(post));
    assert forall|c: int|
        0 <= c < post.sys.current.len() && (#[trigger] post.sys.current[c]) is Some implies {
        &&& post.sys.slots[post.sys.current[c]->0 as int] is Held
        &&& post.sys.tasks[post.sys.current[c]->0 as int].state == TaskState::Runable
        &&& post.processors[c] is Some
        &&& post.sys.tasks[post.sys.current[c]->0 as int].inner.is_idle ==> post.processors[c]->0.idle
            == post.sys.current[c]->0
    } by {
        if c != cpu {
            assert(v.sys.current[c] is Some);
            assert(v.processors[c] is Some);
        } else {
            assert(post.processors[c] is Some);
        }
    }
    assert(idles_orderly(post)) by {
        assert forall|c: int, d: int|
            0 <= c < post.processors.len() && 0 <= d < post.sys.current.len() && c != d && (
            #[trigger] post.processors[c]) is Some && (
            #[trigger] post.sys.current[d]) is Some implies post.processors[c]->0.idle
            != post.sys.current[d]->0 by {
            assert(v.processors[c] is Some);
            if d != cpu {
                assert(v.sys.current[d] is Some);
            } else if next == v.proc(cpu).idle {
                assert(v.processors[c]->0.idle != v.processors[cpu as int]->0.idle);
            }
        }
        assert forall|c: int, d: int|
            0 <= c < post.processors.len() && 0 <= d < post.processors.len() && c != d && (
            #[trigger] post.processors[c]) is Some && (
            #[trigger] post.processors[d]) is Some implies post.processors[c]->0.idle
            != post.processors[d]->0.idle by {
            assert(v.processors[c] is Some);
            assert(v.processors[d] is Some);
        }
        assert forall|c: int|
            0 <= c < post.processors.len() && (#[trigger] post.processors[c]) is Some implies {
            &&& post.sys.slots[post.processors[c]->0.idle as int] is Held
            &&& post.sys.tasks[post.processors[c]->0.idle as int].inner.is_idle
            &&& post.sys.tasks[post.processors[c]->0.idle as int].state == TaskState::Runable
        } by {
            assert(v.processors[c] is Some);
        }
    }
    assert(cpus_apart(post));
}

/// The running task of CPU `cpu` goes back into the ready queue.
proof fn lemma_requeued_on<S: BaseScheduler>(
    pre: KernelView,
    cpu: usize,
    preempt: bool,
    post: KernelView,
)
    requires
        between_on(pre, cpu as int),
        processor_ref::runs_on(pre, cpu),
        pre.sys.slots[pre.sys.curr(cpu) as int] is Held,
        pre.sys.state(pre.sys.curr(cpu)) == TaskState::Runable,
        !pre.sys.inner(pre.sys.curr(cpu)).is_idle,
        processor::requeued_on::<S>(pre, cpu, pre.sys.curr(cpu), preempt, post),
    ensures
        between_on(post, cpu as int),
        processor_ref::runs_on(post, cpu),
        post.sys.tasks == pre.sys.tasks,
        post.sys.current == pre.sys.current,
        post.sys.config == pre.sys.config,
        post.proc(cpu).idle == pre.proc(cpu).idle,
        post.sys.slots == pre.sys.slots.update(
            pre.sys.curr(cpu) as int,
            Slot::Processor(cpu),
        ),
{
    let prev = pre.sys.curr(cpu);
    let e = pre.sys.slots[prev as int]->Held_0;
    let ready = post.proc(cpu).ready;
    assert(pre.sys.current[cpu as int] is Some);
    processor::lemma_ready_queue(pre, cpu, prev);
    S::puts_inserts(e, preempt, pre.proc(cpu).ready, ready);
    let x = choose|x: Entry|
        x.id == e.id && sched::akin(e, x) && sched::fits(x) && #[trigger] sched::inserted(
            pre.proc(cpu).ready,
            x,
            ready,
        );
    assert forall|c: int| c != cpu implies !runs(pre.sys, c, prev) by {
        if runs(pre.sys, c, prev) {
            assert(pre.sys.current[c] != pre.sys.current[cpu as int]);
        }
    }
    lemma_queued_on(pre, cpu, prev, x, ready, cpu as int);
}

/// A change of tasks that leaves their states alone, of the running task of CPU `cpu` and of the task
/// that the CPU comes from keeps the kernel sound.
proof fn lemma_left_wf(v: KernelView, cpu: usize, sys: SystemView, prev: AxTaskRef)
    requires
        v.wf(),
        v.has_processor(cpu),
        v.sys.valid(prev),
        sys.wf(),
        v.sys.same_frame(sys),
    ensures
        v.with_sys(sys).with_proc(
            cpu,
            ProcessorView { prev: Some(prev), ..v.proc(cpu) },
        ).wf(),
{
    let p = ProcessorView { prev: Some(prev), ..v.proc(cpu) };
    assert(v.processors[cpu as int] is Some);
    kernel::lemma_sys_changed(v, sys);
    assert(v.with_sys(sys).processors[cpu as int] is Some);
    processor::lemma_proc_changed(v.with_sys(sys), cpu, p);
}

/// Giving up the CPU keeps order: afterwards every CPU runs a task of its own, which can run and is in no
/// ready queue, and whoever waits can run. A task that cannot run on is left.
pub proof fn lemma_rescheduled_on<S: BaseScheduler>(
    pre: KernelView,
    cpu: usize,
    post: KernelView,
    work: Switched,
)
    requires
        orderly_on_but(pre, cpu as int),
        processor_ref::runs_on(pre, cpu),
        processor_ref::rescheduled_on::<S>(pre, cpu, post, work),
    ensures
        orderly_on(post),
        processor_ref::runs_on(post, cpu),
        pre.sys.state(pre.sys.curr(cpu)) != TaskState::Runable ==> {
            &&& work is To
            &&& post.sys.curr(cpu) != pre.sys.curr(cpu)
            &&& post.sys.state(pre.sys.curr(cpu)) == pre.sys.state(pre.sys.curr(cpu))
            &&& post.sys.slots[pre.sys.curr(cpu) as int] is Held
        },
        work is Stay <==> post.sys.curr(cpu) == pre.sys.curr(cpu),
        work is To ==> work->To_0.prev == pre.sys.curr(cpu) && work->To_0.next
            == post.sys.curr(cpu),
        pre.sys.config.preempt ==> !post.sys.inner(post.sys.curr(cpu)).preempt_pending,
{
    let prev = pre.sys.curr(cpu);
    let mid = choose|mid: KernelView|
        {
            &&& #[trigger] processor_ref::put_back_on::<S>(pre, cpu, mid)
            &&& post == processor_ref::switched_on(
                processor::picked_on(mid, cpu),
                cpu,
                prev,
                processor::next_on(mid, cpu),
            )
            &&& work == run_queue::switch_work(
                processor::picked_on(mid, cpu).sys,
                prev,
                processor::next_on(mid, cpu),
            )
        };
    assert(pre.sys.current[cpu as int] is Some);
    assert(pre.sys.slots[prev as int] is Held);
    if pre.sys.state(prev) == TaskState::Runable && !pre.sys.inner(prev).is_idle {
        let preempt = pre.sys.config.preempt && pre.sys.inner(prev).preempt_pending;
        lemma_requeued_on::<S>(pre, cpu, preempt, mid);
    }
    let next = processor::next_on(mid, cpu);
    let sel = processor::picked_on(mid, cpu);
    lemma_next_on(mid, cpu);
    let claimed = processor_ref::claimed_on(sel, next);
    kernel::lemma_sys_changed(sel, claimed.sys);
    if prev != next {
        let sys = if claimed.sys.config.smp {
            processor_ref::with_on_cpu(claimed.sys, next, true)
        } else {
            claimed.sys
        };
        lemma_left_wf(claimed, cpu, sys.with_current(cpu, next), prev);
    }
    assert(post.sys.current =~= sel.sys.current.update(cpu as int, Some(next)));
    lemma_taken(sel, cpu, next, post);
}

/// Scheduling keeps order: afterwards every CPU runs a task of its own, which can run and is in no ready
/// queue, and whoever waits can run. A task that wants to block is blocked; one that has exited is left.
pub proof fn lemma_scheduled<S: BaseScheduler>(
    pre: KernelView,
    cpu: usize,
    post: KernelView,
    work: Switched,
)
    requires
        orderly_on_but(pre, cpu as int),
        processor_ref::runs_on(pre, cpu),
        schedule::scheduled::<S>(pre, cpu, post, work),
    ensures
        orderly_on(post),
        processor_ref::runs_on(post, cpu),
        pre.sys.state(pre.sys.curr(cpu)) != TaskState::Runable ==> {
            &&& work is To
            &&& post.sys.curr(cpu) != pre.sys.curr(cpu)
            &&& post.sys.state(pre.sys.curr(cpu)) == if pre.sys.state(pre.sys.curr(cpu))
                == TaskState::Blocking {
                TaskState::Blocked
            } else {
                TaskState::Exited
            }
            &&& post.sys.slots[pre.sys.curr(cpu) as int] is Held
        },
        work is To ==> work->To_0.prev == pre.sys.curr(cpu) && work->To_0.next
            == post.sys.curr(cpu) && post.sys.tasks[pre.sys.curr(cpu) as int].state_locked,
        pre.sys.config.preempt ==> !post.sys.inner(post.sys.curr(cpu)).preempt_pending,
{
    let prev = pre.sys.curr(cpu);
    let first = processor::next_on(pre, cpu);
    let sel = processor::picked_on(pre, cpu);
    let (mid, next) = choose|mid: KernelView, next: AxTaskRef|
        {
            &&& #[trigger] schedule::settled::<S>(sel, cpu, first, mid, next)
            &&& post == schedule::moved(mid, cpu, prev, next)
            &&& work == schedule::move_work(mid.sys, prev, next)
        };
    assert(pre.sys.current[cpu as int] is Some);
    assert(pre.sys.slots[prev as int] is Held);
    lemma_next_on(pre, cpu);
    assert(sel.sys.curr(cpu) == prev);
    assert(sel.sys.slots[prev as int] is Held);
    match sel.sys.state(prev) {
        TaskState::Runable => {
            if !sel.sys.inner(first).is_idle && !sel.sys.inner(prev).is_idle {
                let preempt = sel.sys.config.preempt && sel.sys.inner(prev).preempt_pending;
                lemma_requeued_on::<S>(sel, cpu, preempt, mid);
                assert(first != prev) by {
                    if pre.proc(cpu).ready.len() > 0 {
                        assert(sched::listed(pre.proc(cpu).ready, first));
                        assert(pre.sys.slots[first as int] is Processor);
                    }
                }
            }
        },
        TaskState::Blocking => {
            lemma_now_blocked(sel, cpu);
            assert(first != prev);
        },
        _ => {
            assert(first != prev);
        },
    }
    assert forall|c: int| c != cpu implies !runs(mid.sys, c, next) by {
        if runs(mid.sys, c, next) && next == prev {
            assert(pre.sys.current[c] != pre.sys.current[cpu as int]);
        }
    }
    assert(mid.processors[cpu as int] is Some);
    let claimed = processor_ref::claimed_on(mid, next);
    kernel::lemma_sys_changed(mid, claimed.sys);
    if schedule::leaves(claimed.sys, prev, next) {
        lemma_left_wf(
            claimed,
            cpu,
            schedule::with_lock(claimed.sys, prev, true).with_current(cpu, next),
            prev,
        );
    }
    assert(post.sys.current =~= mid.sys.current.update(cpu as int, Some(next)));
    lemma_taken(mid, cpu, next, post);
}

/// The running task of CPU `cpu`, which wants to block, is blocked.
proof fn lemma_now_blocked(pre: KernelView, cpu: usize)
    requires
        between_on(pre, cpu as int),
        processor_ref::runs_on(pre, cpu),
        pre.sys.slots[pre.sys.curr(cpu) as int] is Held,
        pre.sys.state(pre.sys.curr(cpu)) == TaskState::Blocking,
    ensures
        between_on(
            pre.with_sys(pre.sys.with_state(pre.sys.curr(cpu), TaskState::Blocked)),
            cpu as int,
        ),
{
    let prev = pre.sys.curr(cpu);
    let post = pre.with_sys(pre.sys.with_state(prev, TaskState::Blocked));
    assert(pre.sys.current[cpu as int] is Some);
    kernel::lemma_sys_changed(pre, post.sys);
    lemma_changed_self(pre, cpu, post);
}

/// Order does not depend on the state of the running task of CPU `cpu`, which the CPU is about to give
/// up.
proof fn lemma_changed_self(pre: KernelView, cpu: usize, post: KernelView)
    requires
        between_on(pre, cpu as int),
        processor_ref::runs_on(pre, cpu),
        pre.sys.slots[pre.sys.curr(cpu) as int] is Held,
        post.wf(),
        post == pre.with_sys(SystemView { tasks: post.sys.tasks, ..pre.sys }),
        post.sys.tasks.len() == pre.sys.tasks.len(),
        forall|t: int|
            #![trigger post.sys.tasks[t]]
            0 <= t < pre.sys.tasks.len() ==> post.sys.tasks[t].inner.is_idle
                == pre.sys.tasks[t].inner.is_idle && (t != pre.sys.curr(cpu) ==> post.sys.tasks[t].state
                == pre.sys.tasks[t].state),
        pre.sys.inner(pre.sys.curr(cpu)).is_idle ==> post.sys.state(pre.sys.curr(cpu))
            == pre.sys.state(pre.sys.curr(cpu)),
    ensures
        between_on(post, cpu as int),
{
    let prev = pre.sys.curr(cpu);
    assert(pre.sys.current[cpu as int] is Some);
    assert forall|c: int|
        0 <= c < post.sys.current.len() && c != cpu && (
        #[trigger] post.sys.current[c]) is Some implies post.sys.tasks[post.sys.current[c]->0 as int].state
        == TaskState::Runable by {
        assert(pre.sys.current[c] != pre.sys.current[cpu as int]);
    }
    assert forall|c: int|
        0 <= c < post.processors.len() && (#[trigger] post.processors[c]) is Some implies {
        &&& post.sys.tasks[post.processors[c]->0.idle as int].inner.is_idle
        &&& post.sys.tasks[post.processors[c]->0.idle as int].state == TaskState::Runable
    } by {
        assert(pre.processors[c] is Some);
    }
    assert(queues_orderly(post));
    assert(idles_orderly(post));
    assert(cpus_apart(post));
}

/// Adding a task that can run, that no CPU runs and that is no idle task to a ready queue keeps order.
pub proof fn lemma_enqueued_on<S: BaseScheduler>(
    pre: KernelView,
    cpu: usize,
    task: AxTaskRef,
    post: KernelView,
    me: int,
)
    requires
        between_on(pre, me),
        pre.has_processor(cpu),
        pre.sys.valid(task),
        pre.sys.state(task) == TaskState::Runable,
        !pre.sys.inner(task).is_idle,
        forall|c: int| c != me ==> !runs(pre.sys, c, task),
        processor::enqueued_on::<S>(pre, cpu, task, post),
    ensures
        between_on(post, me),
        post.sys.slots[task as int] is Processor,
{
    if pre.sys.slots[task as int] is Held {
        let e = pre.sys.slots[task as int]->Held_0;
        let ready = post.proc(cpu).ready;
        processor::lemma_ready_queue(pre, cpu, task);
        S::adds_inserts(e, pre.proc(cpu).ready, ready);
        let x = choose|x: Entry|
            x.id == e.id && sched::akin(e, x) && sched::fits(x) && #[trigger] sched::inserted(
                pre.proc(cpu).ready,
                x,
                ready,
            );
        lemma_queued_on(pre, cpu, task, x, ready, me);
    } else {
        assert(pre.sys.slots[task as int] is Processor);
    }
}

/// Waking a task keeps order. A blocked task is in a ready queue and can run; a task that is about to
/// block can run on.
pub proof fn lemma_woken_up<S: BaseScheduler>(
    pre: KernelView,
    task: AxTaskRef,
    post: KernelView,
    me: int,
)
    requires
        between_on(pre, me),
        pre.sys.valid(task),
        pre.sys.state(task) == TaskState::Blocked ==> processor_ref::can_select(
            pre,
            pre.sys.tasks[task as int].cpumask,
        ),
        forall|c: int| runs(pre.sys, c, task) ==> pre.sys.state(task) != TaskState::Blocked,
        schedule::woken_up::<S>(pre, task, post),
    ensures
        between_on(post, me),
        post.sys.state(task) == TaskState::Runable,
        pre.sys.state(task) == TaskState::Blocked ==> post.sys.slots[task as int] is Processor,
{
    let ready = pre.with_sys(pre.sys.with_state(task, TaskState::Runable));
    if pre.sys.state(task) != TaskState::Runable {
        kernel::lemma_sys_changed(pre, ready.sys);
        assert(queues_orderly(ready));
        assert(idles_orderly(ready));
        assert(cpus_apart(ready));
        assert(others_runable(ready, me));
    }
    if pre.sys.state(task) == TaskState::Blocked {
        let mask = pre.sys.tasks[task as int].cpumask;
        let (index, mid) = choose|index: usize, mid: KernelView|
            {
                &&& #[trigger] processor::selected(ready, mask, index, mid)
                &&& processor::enqueued_on::<S>(mid, index, task, post)
            };
        processor::lemma_selected(ready, mask, index, mid);
        assert(mid.processors == pre.processors);
        assert(pre.processors[index as int] is Some);
        assert(between_on(mid, me)) by {
            assert(mid == (KernelView { rotor: mid.rotor, ..ready }));
            lemma_rotor(ready, mid.rotor, me);
        }
        assert forall|c: int| c != me implies !runs(mid.sys, c, task) by {
            if runs(mid.sys, c, task) {
                assert(runs(pre.sys, c, task));
            }
        }
        lemma_enqueued_on::<S>(mid, index, task, post, me);
    }
}

/// Order does not depend on where the search for a processor starts.
pub proof fn lemma_rotor(v: KernelView, rotor: usize, me: int)
    requires
        between_on(v, me),
    ensures
        between_on(KernelView { rotor, ..v }, me),
{
    let w = KernelView { rotor, ..v };
    assert(w.wf()) by {
        assert forall|t: int|
            0 <= t < w.sys.slots.len() && (
            #[trigger] w.sys.slots[t]) is Processor implies w.has_processor(
            w.sys.slots[t]->Processor_0,
        ) by {
            assert(v.has_processor(v.sys.slots[t]->Processor_0));
        }
    }
}

/// A task that can run, is in no ready queue, is no idle task and that no CPU runs: nobody will run it.
pub open spec fn stranded(v: KernelView, t: AxTaskRef) -> bool {
    &&& v.sys.valid(t)
    &&& v.sys.state(t) == TaskState::Runable
    &&& !v.sys.inner(t).is_idle
    &&& v.sys.slots[t as int] is Held
    &&& forall|c: int| !runs(v.sys, c, t)
}

/// No task that can run is lost when a CPU schedules: it waits in a ready queue or runs, unless it did
/// neither before.
#[verifier::rlimit(60)]
pub proof fn lemma_none_stranded<S: BaseScheduler>(
    pre: KernelView,
    cpu: usize,
    post: KernelView,
    work: Switched,
    t: AxTaskRef,
)
    requires
        orderly_on_but(pre, cpu as int),
        processor_ref::runs_on(pre, cpu),
        schedule::scheduled::<S>(pre, cpu, post, work),
        stranded(post, t),
    ensures
        stranded(pre, t),
{
    let prev = pre.sys.curr(cpu);
    let first = processor::next_on(pre, cpu);
    let sel = processor::picked_on(pre, cpu);
    let (mid, next) = choose|mid: KernelView, next: AxTaskRef|
        {
            &&& #[trigger] schedule::settled::<S>(sel, cpu, first, mid, next)
            &&& post == schedule::moved(mid, cpu, prev, next)
            &&& work == schedule::move_work(mid.sys, prev, next)
        };
    assert(pre.sys.current[cpu as int] is Some);
    assert(pre.sys.slots[prev as int] is Held);
    processor::lemma_picked_on(pre, cpu);
    lemma_scheduled_frame::<S>(pre, cpu, post, work);
    assert(post.sys.current =~= pre.sys.current.update(cpu as int, Some(next)));
    assert(post.sys.curr(cpu) == next);
    assert(!runs(post.sys, cpu as int, t));
    assert(t != next);
    if pre.proc(cpu).ready.len() > 0 {
        assert(sched::listed(pre.proc(cpu).ready, first));
        assert(pre.sys.slots[first as int] is Processor);
        assert(!pre.sys.inner(first).is_idle);
    }
    assert(t != prev);
    assert forall|c: int| !runs(pre.sys, c, t) by {
        if runs(pre.sys, c, t) {
            assert(c != cpu);
            assert(post.sys.current[c] == pre.sys.current[c]);
            assert(runs(post.sys, c, t));
        }
    }
}

/// A task that blocks keeps order. Unless it was woken in the meantime it is `Blocked`, no CPU runs it,
/// and it is in no ready queue; if it was, it runs on with its wake-ups used up.
pub proof fn lemma_blocked_on<S: BaseScheduler>(
    pre: KernelView,
    cpu: usize,
    post: KernelView,
    work: Switched,
)
    requires
        orderly_on(pre),
        pre.has_processor(cpu),
        block::can_block(pre, cpu),
        block::blocked::<S>(pre, cpu, post, work),
    ensures
        orderly_on(post),
        processor_ref::runs_on(post, cpu),
        pre.sys.inner(pre.sys.curr(cpu)).wakeup_cnt == 0 ==> {
            &&& post.sys.state(pre.sys.curr(cpu)) == TaskState::Blocked
            &&& post.sys.slots[pre.sys.curr(cpu) as int] is Held
            &&& forall|c: int| !runs(post.sys, c, pre.sys.curr(cpu))
        },
        pre.sys.inner(pre.sys.curr(cpu)).wakeup_cnt > 0 ==> post.sys.curr(cpu) == pre.sys.curr(cpu)
            && post.sys.inner(pre.sys.curr(cpu)).wakeup_cnt == 0,
{
    let curr = pre.sys.curr(cpu);
    assert(pre.sys.current[cpu as int] is Some);
    if pre.sys.inner(curr).wakeup_cnt > 0 {
        kernel::lemma_sys_changed(pre, post.sys);
        lemma_same_order_on(pre, post);
    }
    if pre.sys.inner(curr).wakeup_cnt == 0 {
        lemma_own_state(pre, cpu, TaskState::Blocking);
        let v = pre.with_sys(pre.sys.with_state(curr, TaskState::Blocking));
        lemma_scheduled::<S>(v, cpu, post, work);
        assert forall|c: int| !runs(post.sys, c, curr) by {
            if runs(post.sys, c, curr) {
                assert(post.sys.current[c] is Some);
            }
        }
    }
}

/// The running task of CPU `cpu`, which is no idle task, changes its state, before the CPU gives it up.
pub proof fn lemma_own_state(pre: KernelView, cpu: usize, state: TaskState)
    requires
        orderly_on(pre),
        processor_ref::runs_on(pre, cpu),
        !pre.sys.inner(pre.sys.curr(cpu)).is_idle,
    ensures
        orderly_on_but(
            pre.with_sys(pre.sys.with_state(pre.sys.curr(cpu), state)),
            cpu as int,
        ),
{
    let curr = pre.sys.curr(cpu);
    let v = pre.with_sys(pre.sys.with_state(curr, state));
    assert(pre.sys.current[cpu as int] is Some);
    kernel::lemma_sys_changed(pre, v.sys);
    assert(between_on(pre, cpu as int));
    lemma_changed_self(pre, cpu, v);
}

/// Waking a task on a CPU that has a processor keeps order, also while the CPU is about to give up its
/// own.
pub proof fn lemma_woken_on<S: BaseScheduler>(
    pre: KernelView,
    cpu: usize,
    task: AxTaskRef,
    post: KernelView,
)
    requires
        between_on(pre, cpu as int),
        none_running_blocked(pre.sys),
        pre.has_processor(cpu),
        pre.sys.valid(task),
        block::can_wake(pre, cpu, task, false),
        block::woken::<S>(pre, cpu, task, false, post),
    ensures
        between_on(post, cpu as int),
        none_running_blocked(post.sys),
        post.has_processor(cpu),
        block::waking_keeps(pre, post),
        post.sys.state(task) != TaskState::Blocked,
        post.sys.state(task) != TaskState::Blocking,
        forall|t: int|
            0 <= t < pre.sys.slots.len() && t != task ==> (#[trigger] post.sys.slots[t])
                == pre.sys.slots[t],
        pre.sys.state(task) == TaskState::Exited ==> post.sys.slots[task as int]
            == pre.sys.slots[task as int],
{
    block::lemma_woken::<S>(pre, cpu, task, false, post);
    assert(block::kept_processor(pre.processors[cpu as int], post.processors[cpu as int]));
    match pre.sys.state(task) {
        TaskState::Blocked => {
            let mid = choose|mid: KernelView|
                {
                    &&& #[trigger] schedule::woken_up::<S>(pre, task, mid)
                    &&& post == mid
                };
            assert(post == mid);
            assert forall|c: int| runs(pre.sys, c, task) implies pre.sys.state(task)
                != TaskState::Blocked by {
                assert(pre.sys.current[c] is Some);
            }
            lemma_woken_up::<S>(pre, task, post, cpu as int);
        },
        TaskState::Blocking => {
            lemma_woken_up::<S>(pre, task, post, cpu as int);
        },
        TaskState::Runable => {
            kernel::lemma_sys_changed(pre, post.sys);
            assert(queues_orderly(post));
            assert(idles_orderly(post));
            assert(cpus_apart(post));
        },
        _ => {},
    }
    assert forall|c: int|
        0 <= c < post.sys.current.len() && (
        #[trigger] post.sys.current[c]) is Some implies post.sys.state(post.sys.current[c]->0)
        != TaskState::Blocked by {
        assert(pre.sys.current[c] is Some);
        assert(run_queue::kept_by_waking(
            pre.sys.tasks[pre.sys.current[c]->0 as int],
            post.sys.tasks[pre.sys.current[c]->0 as int],
        ));
    }
}

/// Waking the tasks of a queue one after the other keeps order, and leaves none of them blocked.
proof fn lemma_all_woken_on<S: BaseScheduler>(
    pre: KernelView,
    cpu: usize,
    q: Seq<AxTaskRef>,
    post: KernelView,
    gone: AxTaskRef,
)
    requires
        between_on(pre, cpu as int),
        none_running_blocked(pre.sys),
        pre.has_processor(cpu),
        pre.sys.all_valid(q),
        pre.sys.valid(gone),
        pre.sys.state(gone) == TaskState::Exited,
        wait_queue::can_wake_all(pre, cpu, q, false),
        wait_queue::all_woken::<S>(pre, cpu, q, false, post),
    ensures
        between_on(post, cpu as int),
        none_running_blocked(post.sys),
        post.has_processor(cpu),
        block::waking_keeps(pre, post),
        post.sys.slots[gone as int] == pre.sys.slots[gone as int],
        forall|i: int|
            0 <= i < q.len() ==> post.sys.state(#[trigger] q[i]) != TaskState::Blocked
                && post.sys.state(q[i]) != TaskState::Blocking,
    decreases q.len(),
{
    if q.len() == 0 {
        block::lemma_waking_none(pre);
    } else {
        let mid = choose|mid: KernelView|
            wait_queue::all_woken::<S>(pre, cpu, q.drop_last(), false, mid) && #[trigger] block::woken::<
                S,
            >(mid, cpu, q.last(), false, post);
        assert forall|i: int| 0 <= i < q.drop_last().len() implies block::can_wake(
            pre,
            cpu,
            #[trigger] q.drop_last()[i],
            false,
        ) && pre.sys.valid(q.drop_last()[i]) by {
            assert(block::can_wake(pre, cpu, q[i], false));
            assert(pre.sys.valid(q[i]));
        }
        lemma_all_woken_on::<S>(pre, cpu, q.drop_last(), mid, gone);
        let task = q.last();
        assert(task == q[q.len() - 1]);
        assert(pre.sys.valid(task));
        assert(block::can_wake(pre, cpu, task, false));
        block::lemma_can_wake_kept(pre, mid, cpu, task, false);
        assert(run_queue::kept_by_waking(
            pre.sys.tasks[gone as int],
            mid.sys.tasks[gone as int],
        ));
        lemma_woken_on::<S>(mid, cpu, task, post);
        block::lemma_waking_keeps(pre, mid, post);
        assert forall|i: int| 0 <= i < q.len() implies post.sys.state(#[trigger] q[i])
            != TaskState::Blocked && post.sys.state(q[i]) != TaskState::Blocking by {
            assert(pre.sys.valid(q[i]));
            if i < q.len() - 1 {
                assert(q.drop_last()[i] == q[i]);
                assert(run_queue::kept_by_waking(
                    mid.sys.tasks[q[i] as int],
                    post.sys.tasks[q[i] as int],
                ));
            }
        }
    }
}

/// Telling of the end of the running task of CPU `cpu` keeps order: the task is `Exited`, nobody can wait
/// for it any more, and nobody who waited for it is blocked or about to block.
pub proof fn lemma_exit_told<S: BaseScheduler>(pre: KernelView, cpu: usize, post: KernelView)
    requires
        orderly_on(pre),
        processor_ref::runs_on(pre, cpu),
        !pre.sys.inner(pre.sys.curr(cpu)).is_idle,
        processor_ref::can_tell_exit(pre, cpu),
        processor_ref::exit_told::<S>(pre, cpu, post),
    ensures
        orderly_on_but(post, cpu as int),
        processor_ref::runs_on(post, cpu),
        run_queue::waking_keeps(
            pre.sys.with_state(pre.sys.curr(cpu), TaskState::Exited),
            post.sys,
        ),
        !post.joins.contains_key(pre.sys.curr(cpu)),
        pre.joins.contains_key(pre.sys.curr(cpu)) ==> forall|i: int|
            0 <= i < pre.joins[pre.sys.curr(cpu)].len() ==> post.sys.state(
                #[trigger] pre.joins[pre.sys.curr(cpu)][i],
            ) != TaskState::Blocked && post.sys.state(pre.joins[pre.sys.curr(cpu)][i])
                != TaskState::Blocking,
{
    let curr = pre.sys.curr(cpu);
    let ended = pre.with_sys(pre.sys.with_state(curr, TaskState::Exited));
    let waiters = pre.proc(cpu).gc_waiters;
    let a = choose|a: KernelView|
        {
            &&& #[trigger] exit::exit_notified::<S>(ended, cpu, curr, a)
            &&& processor_ref::kicked::<S>(a, cpu, curr, post)
        };
    assert(pre.sys.current[cpu as int] is Some);
    assert(pre.processors[cpu as int] is Some);
    lemma_own_state(pre, cpu, TaskState::Exited);
    assert(pre.sys.slots[curr as int] is Held);
    exit::lemma_can_notify_ended(pre, cpu, curr, waiters);
    let gone = KernelView { joins: pre.joins.remove(curr), ..ended };
    lemma_without_joins(ended, cpu as int, curr);
    assert(gone.has_processor(cpu) == ended.has_processor(cpu));
    assert forall|c: int|
        0 <= c < gone.sys.current.len() && (
        #[trigger] gone.sys.current[c]) is Some implies gone.sys.state(gone.sys.current[c]->0)
        != TaskState::Blocked by {
        assert(pre.sys.current[c] is Some);
    }
    // Those who wait are woken.
    if pre.joins.contains_key(curr) {
        let q = pre.joins[curr];
        assert(pre.sys.all_valid(q));
        assert forall|i: int| 0 <= i < q.len() implies block::can_wake(
            gone,
            cpu,
            #[trigger] q[i],
            false,
        ) && gone.sys.valid(q[i]) by {
            assert(pre.sys.valid(q[i]));
            assert(block::can_wake(ended, cpu, ended.joins[curr][i], false));
            exit::lemma_can_wake_gone(ended, cpu, q[i], curr);
        }
        lemma_all_woken_on::<S>(gone, cpu, q, a, curr);
    } else {
        assert(pre.joins.remove(curr) =~= pre.joins);
        block::lemma_waking_none(gone);
    }
    // The task that drops exited tasks is woken.
    exit::lemma_first_kept(gone, a, cpu, waiters);
    assert(block::kept_processor(gone.processors[cpu as int], a.processors[cpu as int]));
    let kept = processor_ref::with_exited(a, cpu, curr);
    lemma_exited_noted(a, cpu, curr);
    assert(run_queue::kept_by_waking(ended.sys.tasks[curr as int], a.sys.tasks[curr as int]));
    if waiters.len() > 0 {
        assert(pre.sys.valid(waiters[0]));
        processor_ref::lemma_can_wake_kept(a, kept, cpu, waiters[0]);
        lemma_woken_on::<S>(kept, cpu, waiters[0], post);
    } else {
        block::lemma_waking_none(kept);
    }
    run_queue::lemma_waking_keeps(ended.sys, a.sys, post.sys);
    assert(post.sys.slots[curr as int] is Held);
    assert(block::kept_processor(kept.processors[cpu as int], post.processors[cpu as int]));
    if pre.joins.contains_key(curr) {
        let q = pre.joins[curr];
        assert forall|i: int| 0 <= i < q.len() implies post.sys.state(#[trigger] q[i])
            != TaskState::Blocked && post.sys.state(q[i]) != TaskState::Blocking by {
            assert(pre.sys.valid(q[i]));
            assert(run_queue::kept_by_waking(
                a.sys.tasks[q[i] as int],
                post.sys.tasks[q[i] as int],
            ));
        }
    }
}

/// Order does not depend on who waits for whom.
proof fn lemma_without_joins(v: KernelView, me: int, task: AxTaskRef)
    requires
        between_on(v, me),
    ensures
        between_on(KernelView { joins: v.joins.remove(task), ..v }, me),
{
    let w = KernelView { joins: v.joins.remove(task), ..v };
    assert(w.wf()) by {
        assert forall|t: int|
            0 <= t < w.sys.slots.len() && (
            #[trigger] w.sys.slots[t]) is Processor implies w.has_processor(
            w.sys.slots[t]->Processor_0,
        ) by {
            assert(v.has_processor(v.sys.slots[t]->Processor_0));
        }
    }
}

/// Order does not depend on which tasks are to be dropped.
proof fn lemma_exited_noted(v: KernelView, cpu: usize, task: AxTaskRef)
    requires
        between_on(v, cpu as int),
        v.has_processor(cpu),
        v.sys.valid(task),
    ensures
        between_on(processor_ref::with_exited(v, cpu, task), cpu as int),
{
    let w = processor_ref::with_exited(v, cpu, task);
    assert(v.processors[cpu as int] is Some);
    processor::lemma_proc_changed(v, cpu, w.proc(cpu));
    assert forall|c: int|
        0 <= c < w.processors.len() && (#[trigger] w.processors[c]) is Some implies {
        &&& v.processors[c] is Some
        &&& w.processors[c]->0.idle == v.processors[c]->0.idle
    } by {
    }
    assert(idles_orderly(w));
    assert(cpus_apart(w));
}

/// The end of a task: it is `Exited` with its code stored, no CPU runs it, it is in no ready queue,
/// nobody can wait for it any more, and nobody who waited for it is blocked. All else is in order.
pub proof fn lemma_exited<S: BaseScheduler>(
    pre: KernelView,
    cpu: usize,
    code: i32,
    post: KernelView,
    r: Exit,
)
    requires
        orderly_on(pre),
        processor_ref::runs_on(pre, cpu),
        !pre.sys.inner(pre.sys.curr(cpu)).is_idle,
        processor_ref::can_tell_exit(pre, cpu),
        schedule::exited::<S>(pre, cpu, code, post, r),
        r is Switch,
    ensures
        orderly_on(post),
        r->Switch_0 is To,
        post.sys.state(pre.sys.curr(cpu)) == TaskState::Exited,
        post.sys.inner(pre.sys.curr(cpu)).exit_code == code,
        post.sys.slots[pre.sys.curr(cpu) as int] is Held,
        forall|c: int| !runs(post.sys, c, pre.sys.curr(cpu)),
        !post.joins.contains_key(pre.sys.curr(cpu)),
        pre.joins.contains_key(pre.sys.curr(cpu)) ==> forall|i: int|
            0 <= i < pre.joins[pre.sys.curr(cpu)].len() ==> post.sys.state(
                #[trigger] pre.joins[pre.sys.curr(cpu)][i],
            ) != TaskState::Blocked,
{
    let curr = pre.sys.curr(cpu);
    let b = choose|b: KernelView|
        {
            &&& #[trigger] processor_ref::exit_told::<S>(pre, cpu, b)
            &&& if pre.sys.inner(curr).is_init {
                post == b && r == Exit::Terminate
            } else {
                r is Switch && schedule::scheduled::<S>(
                    b.with_sys(run_queue::with_exit_code(b.sys, curr, code)),
                    cpu,
                    post,
                    r->Switch_0,
                )
            }
        };
    assert(pre.sys.current[cpu as int] is Some);
    lemma_exit_told::<S>(pre, cpu, b);
    let ended = pre.sys.with_state(curr, TaskState::Exited);
    assert(run_queue::kept_by_waking(ended.tasks[curr as int], b.sys.tasks[curr as int]));
    let v = b.with_sys(run_queue::with_exit_code(b.sys, curr, code));
    kernel::lemma_sys_changed(b, v.sys);
    lemma_changed_self(b, cpu, v);
    lemma_scheduled::<S>(v, cpu, post, r->Switch_0);
    lemma_scheduled_frame::<S>(v, cpu, post, r->Switch_0);
    assert forall|c: int| !runs(post.sys, c, curr) by {
        if runs(post.sys, c, curr) {
            assert(post.sys.current[c] is Some);
        }
    }
    if pre.joins.contains_key(curr) {
        let q = pre.joins[curr];
        assert forall|i: int| 0 <= i < q.len() implies post.sys.state(#[trigger] q[i])
            != TaskState::Blocked by {
            assert(pre.sys.valid(q[i]));
            assert(v.sys.state(q[i]) == b.sys.state(q[i]));
        }
    }
}

/// What scheduling leaves of a task: all but whether its preemption is pending, whether its state is
/// locked, and the state of one that wants to block.
pub open spec fn kept_by_scheduling(pre: ScheduleTask, post: ScheduleTask) -> bool {
    &&& post == (ScheduleTask {
        state: post.state,
        state_locked: post.state_locked,
        inner: TaskInner { preempt_pending: post.inner.preempt_pending, ..pre.inner },
        ..pre
    })
    &&& post.state == pre.state || pre.state == TaskState::Blocking
}

/// Settling what becomes of the running task changes no task but that one, and it only from `Blocking`.
pub proof fn lemma_settled_frame<S: BaseScheduler>(
    pre: KernelView,
    cpu: usize,
    first: AxTaskRef,
    mid: KernelView,
    next: AxTaskRef,
)
    requires
        pre.sys.running(cpu),
        pre.sys.valid(pre.sys.curr(cpu)),
        schedule::settled::<S>(pre, cpu, first, mid, next),
    ensures
        mid.joins == pre.joins,
        mid.sys.current == pre.sys.current,
        mid.sys.tasks.len() == pre.sys.tasks.len(),
        next == first || next == pre.sys.curr(cpu),
        forall|t: int|
            #![trigger mid.sys.tasks[t]]
            0 <= t < pre.sys.tasks.len() ==> mid.sys.tasks[t] == if t == pre.sys.curr(cpu)
                && pre.sys.tasks[t].state == TaskState::Blocking {
                ScheduleTask { state: TaskState::Blocked, ..pre.sys.tasks[t] }
            } else {
                pre.sys.tasks[t]
            },
{
}

/// What scheduling leaves alone: who waits for whom, and of the tasks all but the state of one that wants
/// to block, what is pending, and what is locked.
pub proof fn lemma_scheduled_frame<S: BaseScheduler>(
    pre: KernelView,
    cpu: usize,
    post: KernelView,
    work: Switched,
)
    requires
        pre.wf(),
        processor_ref::runs_on(pre, cpu),
        schedule::scheduled::<S>(pre, cpu, post, work),
    ensures
        post.joins == pre.joins,
        post.sys.tasks.len() == pre.sys.tasks.len(),
        forall|t: int|
            #![trigger post.sys.tasks[t]]
            0 <= t < pre.sys.tasks.len() ==> {
                &&& kept_by_scheduling(pre.sys.tasks[t], post.sys.tasks[t])
                &&& post.sys.tasks[t].state == pre.sys.tasks[t].state || t == pre.sys.curr(cpu)
            },
{
    let prev = pre.sys.curr(cpu);
    let first = processor::next_on(pre, cpu);
    let sel = processor::picked_on(pre, cpu);
    processor::lemma_picked_on(pre, cpu);
    let (mid, next) = choose|mid: KernelView, next: AxTaskRef|
        {
            &&& #[trigger] schedule::settled::<S>(sel, cpu, first, mid, next)
            &&& post == schedule::moved(mid, cpu, prev, next)
            &&& work == schedule::move_work(mid.sys, prev, next)
        };
    assert(pre.sys.current[cpu as int] is Some);
    assert(sel.sys.tasks == pre.sys.tasks);
    assert(sel.sys.current == pre.sys.current);
    lemma_settled_frame::<S>(sel, cpu, first, mid, next);
    lemma_moved_frame(mid, cpu, prev, next);
}

/// Going over to another task changes of the tasks only what is pending and what is locked.
proof fn lemma_moved_frame(pre: KernelView, cpu: usize, prev: AxTaskRef, next: AxTaskRef)
    requires
        pre.sys.valid(prev),
        pre.sys.valid(next),
    ensures
        schedule::moved(pre, cpu, prev, next).joins == pre.joins,
        schedule::moved(pre, cpu, prev, next).sys.tasks.len() == pre.sys.tasks.len(),
        forall|t: int|
            #![trigger schedule::moved(pre, cpu, prev, next).sys.tasks[t]]
            0 <= t < pre.sys.tasks.len() ==> {
                let a = pre.sys.tasks[t];
                let b = schedule::moved(pre, cpu, prev, next).sys.tasks[t];
                kept_by_scheduling(a, b) && b.state == a.state
            },
{
}

/// Order depends on the states of the tasks, on who is idle, on which tasks have their items, and on who
/// runs where.
pub proof fn lemma_same_order_on(pre: KernelView, post: KernelView)
    requires
        orderly_on(pre),
        post.wf(),
        post.sys.current == pre.sys.current,
        post.sys.tasks.len() == pre.sys.tasks.len(),
        post.sys.slots.len() == pre.sys.slots.len(),
        forall|t: int|
            #![trigger post.sys.tasks[t]]
            0 <= t < pre.sys.tasks.len() ==> post.sys.tasks[t].state == pre.sys.tasks[t].state
                && post.sys.tasks[t].inner.is_idle == pre.sys.tasks[t].inner.is_idle,
        forall|t: int|
            #![trigger post.sys.slots[t]]
            0 <= t < pre.sys.slots.len() ==> (post.sys.slots[t] is Held <==> pre.sys.slots[t] is Held)
                && (post.sys.slots[t] is Processor <==> pre.sys.slots[t] is Processor),
        post.processors.len() == pre.processors.len(),
        forall|c: int|
            #![trigger post.processors[c]]
            0 <= c < pre.processors.len() ==> (post.processors[c] is Some
                <==> pre.processors[c] is Some) && (pre.processors[c] is Some
                ==> post.processors[c]->0.idle == pre.processors[c]->0.idle),
    ensures
        orderly_on(post),
{
    assert(queues_orderly(post));
    assert forall|c: int|
        0 <= c < post.sys.current.len() && (#[trigger] post.sys.current[c]) is Some implies {
        &&& pre.sys.current[c] is Some
        &&& pre.processors[c] is Some
        &&& post.processors[c] is Some
    } by {
        assert(pre.sys.current[c] is Some);
        assert(post.processors[c] is Some);
    }
    assert(cpus_apart(post));
    assert forall|c: int|
        0 <= c < post.processors.len() && (
        #[trigger] post.processors[c]) is Some implies pre.processors[c] is Some by {
    }
    assert(idles_orderly(post));
}

/// A timer tick keeps order.
pub proof fn lemma_ticked_on<S: BaseScheduler>(
    pre: KernelView,
    cpu: usize,
    ready: Ready,
    post: KernelView,
)
    requires
        orderly_on(pre),
        run_queue::can_tick::<S>(pre.sys, cpu),
        post == pre.with_sys(post.sys),
        run_queue::ticked::<S>(pre.sys, cpu, ready, post.sys),
    ensures
        orderly_on(post),
{
    let curr = pre.sys.curr(cpu);
    assert(pre.sys.current[cpu as int] is Some);
    if !pre.sys.inner(curr).is_idle {
        let (e, due) = choose|e: Entry, due: bool|
            {
                &&& #[trigger] S::ticks(pre.sys.slots[curr as int]->Held_0, ready, e, due)
                &&& post.sys == if due && pre.sys.config.preempt {
                    pre.sys.with_slot(curr, Slot::Held(e)).with_pending(curr, true)
                } else {
                    pre.sys.with_slot(curr, Slot::Held(e))
                }
            };
        S::ticks_keeps(pre.sys.slots[curr as int]->Held_0, ready, e, due);
        system::lemma_held_sound(pre.sys.run_queue, pre.sys.slots, curr);
        S::ticked_sound(pre.sys.run_queue, pre.sys.slots[curr as int]->Held_0);
        system::lemma_slot_sound(pre.sys.run_queue, pre.sys.slots, curr, Slot::Held(e));
        kernel::lemma_sys_changed(pre, post.sys);
        lemma_same_order_on(pre, post);
    }
}

/// A change of priority keeps order.
pub proof fn lemma_reprioritised_on<S: BaseScheduler>(pre: KernelView, cpu: usize, prio: isize)
    requires
        orderly_on(pre),
        pre.sys.running(cpu),
    ensures
        orderly_on(pre.with_sys(run_queue::reprioritised::<S>(pre.sys, cpu, prio))),
{
    let curr = pre.sys.curr(cpu);
    let post = pre.with_sys(run_queue::reprioritised::<S>(pre.sys, cpu, prio));
    assert(pre.sys.current[cpu as int] is Some);
    let e = pre.sys.slots[curr as int]->Held_0;
    S::reweighed_id(e, prio);
    system::lemma_held_sound(pre.sys.run_queue, pre.sys.slots, curr);
    if S::accepts(prio) {
        system::lemma_slot_sound(
            pre.sys.run_queue,
            pre.sys.slots,
            curr,
            Slot::Held(S::reweighed(e, prio)),
        );
    }
    kernel::lemma_sys_changed(pre, post.sys);
    lemma_same_order_on(pre, post);
}

/// Finishing a switch keeps order.
pub proof fn lemma_switch_finished_on(pre: KernelView, cpu: usize)
    requires
        orderly_on(pre),
        pre.has_processor(cpu),
        pre.proc(cpu).prev is Some,
    ensures
        orderly_on(processor_ref::switch_finished(pre, cpu)),
{
    let post = processor_ref::switch_finished(pre, cpu);
    assert(pre.processors[cpu as int] is Some);
    kernel::lemma_sys_changed(pre, post.sys);
    processor::lemma_proc_changed(pre.with_sys(post.sys), cpu, post.proc(cpu));
    lemma_same_order_on(pre, post);
}

} // verus!
