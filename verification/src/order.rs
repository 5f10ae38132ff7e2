//! What every operation on the shared run queue keeps.
use crate::run_queue;
use crate::sched;
use crate::sched::{BaseScheduler, Entry, Ready};
use crate::system;
use crate::system::{AxTaskRef, Slot, Switched, SystemView};
use crate::task::TaskState;
use vstd::prelude::*;

verus! {

/// CPU `c` runs the task `t`.
pub open spec fn runs(v: SystemView, c: int, t: AxTaskRef) -> bool {
    0 <= c < v.current.len() && v.current[c] == Some(t)
}

/// A task in the run queue can run. No idle task is in the run queue or blocked.
pub open spec fn queue_orderly(v: SystemView) -> bool {
    &&& forall|t: int|
        0 <= t < v.slots.len() && (#[trigger] v.slots[t]) is RunQueue ==> v.tasks[t].state
            == TaskState::Runable && !v.tasks[t].inner.is_idle
    &&& forall|t: int|
        0 <= t < v.tasks.len() && (#[trigger] v.tasks[t]).state == TaskState::Blocked
            ==> !v.tasks[t].inner.is_idle
}

/// No task runs on two CPUs, no running task is in a ready queue, and an idle task runs on the CPU whose
/// idle task it is.
pub open spec fn cpus_orderly(v: SystemView) -> bool {
    &&& forall|c: int|
        0 <= c < v.current.len() && (#[trigger] v.current[c]) is Some
            ==> v.slots[v.current[c]->0 as int] is Held
    &&& forall|c: int, d: int|
        0 <= c < v.current.len() && 0 <= d < v.current.len() && c != d && (
        #[trigger] v.current[c]) is Some && (#[trigger] v.current[d]) is Some ==> v.current[c]
            != v.current[d]
    &&& forall|c: int|
        0 <= c < v.current.len() && (#[trigger] v.current[c]) is Some
            && v.tasks[v.current[c]->0 as int].inner.is_idle ==> v.idle[c] == v.current[c]
}

/// The idle task of a CPU is in no ready queue and runs on no other CPU.
pub open spec fn idle_orderly(v: SystemView) -> bool {
    &&& forall|c: int|
        0 <= c < v.idle.len() && (#[trigger] v.idle[c]) is Some ==> {
            &&& v.slots[v.idle[c]->0 as int] is Held
            &&& v.tasks[v.idle[c]->0 as int].inner.is_idle
        }
    &&& forall|c: int, d: int|
        0 <= c < v.idle.len() && 0 <= d < v.current.len() && c != d && (
        #[trigger] v.idle[c]) is Some && (#[trigger] v.current[d]) is Some ==> v.idle[c]
            != v.current[d]
    &&& forall|c: int, d: int|
        0 <= c < v.idle.len() && 0 <= d < v.idle.len() && c != d && (
        #[trigger] v.idle[c]) is Some && (#[trigger] v.idle[d]) is Some ==> v.idle[c]
            != v.idle[d]
}

/// Every running task but that of CPU `cpu` is `Running`.
pub open spec fn others_running(v: SystemView, cpu: usize) -> bool {
    forall|c: int|
        0 <= c < v.current.len() && c != cpu && (#[trigger] v.current[c]) is Some
            ==> v.tasks[v.current[c]->0 as int].state == TaskState::Running
}

/// The tasks, the queue and the CPUs are in order, but perhaps for the state of the task of CPU `cpu`.
pub open spec fn orderly_but(v: SystemView, cpu: usize) -> bool {
    &&& v.wf()
    &&& queue_orderly(v)
    &&& cpus_orderly(v)
    &&& idle_orderly(v)
    &&& others_running(v, cpu)
}

/// The tasks, the queue and the CPUs are in order: a task in the run queue can run, a running task is
/// `Running` and in no ready queue, and no two CPUs run the same task.
pub open spec fn orderly(v: SystemView) -> bool {
    &&& v.wf()
    &&& queue_orderly(v)
    &&& cpus_orderly(v)
    &&& idle_orderly(v)
    &&& forall|c: int|
        0 <= c < v.current.len() && (#[trigger] v.current[c]) is Some
            ==> v.tasks[v.current[c]->0 as int].state == TaskState::Running
}

/// No running task is blocked.
pub open spec fn none_running_blocked(v: SystemView) -> bool {
    forall|c: int|
        0 <= c < v.current.len() && (#[trigger] v.current[c]) is Some ==> v.state(v.current[c]->0)
            != TaskState::Blocked
}

/// All but what the task `task` itself and its place are stays.
pub open spec fn same_but(pre: SystemView, post: SystemView, task: AxTaskRef) -> bool {
    &&& post.config == pre.config
    &&& post.current == pre.current
    &&& post.idle == pre.idle
    &&& post.tasks.len() == pre.tasks.len()
    &&& post.slots.len() == pre.slots.len()
    &&& forall|t: int|
        0 <= t < pre.tasks.len() && t != task ==> (#[trigger] post.tasks[t]) == pre.tasks[t]
    &&& forall|t: int|
        0 <= t < pre.slots.len() && t != task ==> (#[trigger] post.slots[t]) == pre.slots[t]
}

/// Between giving up its task and taking the next one, CPU `cpu` may have a task in the queue that it
/// still counts as its own.
pub open spec fn between(v: SystemView, cpu: usize) -> bool {
    &&& v.wf()
    &&& queue_orderly(v)
    &&& idle_orderly(v)
    &&& others_running(v, cpu)
    &&& forall|c: int|
        0 <= c < v.current.len() && c != cpu && (#[trigger] v.current[c]) is Some
            ==> v.slots[v.current[c]->0 as int] is Held
    &&& forall|c: int, d: int|
        0 <= c < v.current.len() && 0 <= d < v.current.len() && c != d && (
        #[trigger] v.current[c]) is Some && (#[trigger] v.current[d]) is Some ==> v.current[c]
            != v.current[d]
    &&& forall|c: int|
        0 <= c < v.current.len() && (#[trigger] v.current[c]) is Some
            && v.tasks[v.current[c]->0 as int].inner.is_idle ==> v.idle[c] == v.current[c]
}

/// Putting a task back into the queue keeps the system sound.
pub proof fn lemma_requeued_wf<S: BaseScheduler>(
    pre: SystemView,
    task: AxTaskRef,
    preempt: bool,
    post: SystemView,
)
    requires
        pre.wf(),
        pre.valid(task),
        system::requeued::<S>(pre, task, preempt, post),
    ensures
        post.wf(),
        pre.slots[task as int] is Held ==> post.slots[task as int] is RunQueue,
        post.tasks == pre.tasks,
        same_but(pre, post, task),
{
    match pre.slots[task as int] {
        Slot::Held(e) => {
            system::lemma_held_sound(pre.run_queue, pre.slots, task);
            S::puts_inserts(e, preempt, pre.run_queue, post.run_queue);
            let x = choose|x: Entry|
                x.id == e.id && sched::akin(e, x) && sched::fits(x) && #[trigger] sched::inserted(
                    pre.run_queue,
                    x,
                    post.run_queue,
                );
            system::lemma_into_run_queue(pre, task, x, post);
        },
        _ => {},
    }
}

/// Adding a task to the queue keeps the system sound.
pub proof fn lemma_enqueued_wf<S: BaseScheduler>(pre: SystemView, task: AxTaskRef, post: SystemView)
    requires
        pre.wf(),
        pre.valid(task),
        system::enqueued::<S>(pre, task, post),
    ensures
        post.wf(),
        !(post.slots[task as int] is Held),
        post.tasks == pre.tasks,
        same_but(pre, post, task),
{
    match pre.slots[task as int] {
        Slot::Held(e) => {
            system::lemma_held_sound(pre.run_queue, pre.slots, task);
            S::adds_inserts(e, pre.run_queue, post.run_queue);
            let x = choose|x: Entry|
                x.id == e.id && sched::akin(e, x) && sched::fits(x) && #[trigger] sched::inserted(
                    pre.run_queue,
                    x,
                    post.run_queue,
                );
            system::lemma_into_run_queue(pre, task, x, post);
        },
        _ => {},
    }
}

/// Adding a task to the queue leaves the order of the others as it is.
pub proof fn lemma_enqueued_ahead<S: BaseScheduler>(
    pre: SystemView,
    task: AxTaskRef,
    post: SystemView,
)
    requires
        pre.wf(),
        pre.valid(task),
        system::enqueued::<S>(pre, task, post),
    ensures
        forall|x: usize, y: usize| #[trigger]
            sched::ahead(pre.run_queue, x, y) ==> sched::ahead(post.run_queue, x, y),
{
    match pre.slots[task as int] {
        Slot::Held(e) => {
            system::lemma_held_sound(pre.run_queue, pre.slots, task);
            S::adds_inserts(e, pre.run_queue, post.run_queue);
            let x = choose|x: Entry|
                x.id == e.id && sched::akin(e, x) && sched::fits(x) && #[trigger] sched::inserted(
                    pre.run_queue,
                    x,
                    post.run_queue,
                );
            sched::lemma_inserted_ahead(pre.run_queue, x, post.run_queue);
        },
        _ => {},
    }
}

/// Taking the first task out of the queue.
proof fn lemma_picked_between(v: SystemView, cpu: usize)
    requires
        between(v, cpu),
        v.run_queue.len() > 0,
    ensures
        between(system::picked(v), cpu),
        v.valid(v.run_queue[0].id),
        v.slots[v.run_queue[0].id as int] is RunQueue,
        system::picked(v).slots[v.run_queue[0].id as int] is Held,
        same_but(v, system::picked(v), v.run_queue[0].id),
        system::picked(v).tasks == v.tasks,
{
    system::lemma_picked(v);
    assert(sched::listed(v.run_queue, v.run_queue[0].id));
}

/// Putting a task that can run into the queue.
proof fn lemma_requeued_between<S: BaseScheduler>(
    pre: SystemView,
    cpu: usize,
    task: AxTaskRef,
    preempt: bool,
    post: SystemView,
)
    requires
        between(pre, cpu),
        pre.valid(task),
        pre.state(task) == TaskState::Runable,
        !pre.inner(task).is_idle,
        forall|c: int| c != cpu ==> !runs(pre, c, task),
        system::requeued::<S>(pre, task, preempt, post),
    ensures
        between(post, cpu),
        post.tasks == pre.tasks,
        post.current == pre.current,
        post.idle == pre.idle,
        post.config == pre.config,
{
    lemma_requeued_wf::<S>(pre, task, preempt, post);
    assert forall|c: int|
        0 <= c < post.current.len() && c != cpu && (
        #[trigger] post.current[c]) is Some implies post.slots[post.current[c]->0 as int] is Held by {
        assert(!runs(pre, c, task));
        assert(pre.current[c] is Some);
    }
    assert forall|c: int|
        0 <= c < post.idle.len() && (#[trigger] post.idle[c]) is Some implies {
        &&& post.slots[post.idle[c]->0 as int] is Held
        &&& post.tasks[post.idle[c]->0 as int].inner.is_idle
    } by {
        assert(pre.idle[c] is Some);
    }
}

/// Every state that a search for a task goes through is in order.
proof fn lemma_search_between<S: BaseScheduler>(steps: Seq<SystemView>, cpu: usize, i: int)
    requires
        run_queue::search::<S>(steps, cpu),
        between(steps[0], cpu),
        0 <= i < steps.len(),
    ensures
        between(steps[i], cpu),
        steps[i].tasks == steps[0].tasks,
        steps[i].current == steps[0].current,
        steps[i].idle == steps[0].idle,
        steps[i].config == steps[0].config,
        steps[i].slots.len() == steps[0].slots.len(),
        forall|t: int|
            0 <= t < steps[0].slots.len() ==> ((#[trigger] steps[i].slots[t]) is Held
                <==> steps[0].slots[t] is Held),
    decreases i,
{
    if i > 0 {
        lemma_search_between::<S>(steps, cpu, i - 1);
        let v = steps[i - 1];
        assert(run_queue::passed_over::<S>(v, cpu, steps[i - 1 + 1]));
        let task = v.run_queue[0].id;
        lemma_picked_between(v, cpu);
        let w = system::picked(v);
        assert forall|c: int| c != cpu implies !runs(w, c, task) by {
            if runs(w, c, task) {
                assert(v.current[c] is Some);
            }
        }
        lemma_requeued_between::<S>(w, cpu, task, false, steps[i]);
        lemma_requeued_wf::<S>(w, task, false, steps[i]);
        assert forall|t: int| 0 <= t < steps[0].slots.len() implies ((
        #[trigger] steps[i].slots[t]) is Held <==> steps[0].slots[t] is Held) by {
            assert(v.slots[t] is Held <==> steps[0].slots[t] is Held);
            if t != task {
                assert(w.slots[t] == v.slots[t]);
            }
        }
    }
}

/// The task that is chosen next is in order to be run: it has its item, and no other CPU runs it.
proof fn lemma_chosen<S: BaseScheduler>(
    mid: SystemView,
    cpu: usize,
    next: AxTaskRef,
    sel: SystemView,
)
    requires
        between(mid, cpu),
        mid.running(cpu),
        mid.idle[cpu as int] is Some,
        run_queue::chosen::<S>(mid, cpu, next, sel),
    ensures
        between(sel, cpu),
        sel.tasks == mid.tasks,
        sel.current == mid.current,
        sel.idle == mid.idle,
        sel.config == mid.config,
        sel.valid(next),
        sel.slots[next as int] is Held,
        sel.slots.len() == mid.slots.len(),
        forall|t: int|
            0 <= t < mid.slots.len() && t != next ==> ((#[trigger] sel.slots[t]) is Held
                <==> mid.slots[t] is Held),
        forall|c: int| c != cpu ==> !runs(sel, c, next),
        next == mid.idle[cpu as int]->0 || (mid.state(next) == TaskState::Runable && !mid.inner(
            next,
        ).is_idle),
{
    let idle = mid.idle[cpu as int]->0;
    assert forall|c: int| c != cpu implies !runs(mid, c, idle) by {
        if runs(mid, c, idle) {
            assert(mid.idle[cpu as int] != mid.current[c]);
        }
    }
    if mid.config.monolithic {
        let (steps, task) = choose|steps: Seq<SystemView>, task: Option<AxTaskRef>|
            {
                &&& #[trigger] run_queue::search::<S>(steps, cpu)
                &&& steps[0] == mid
                &&& #[trigger] run_queue::found::<S>(steps, cpu, task, sel)
                &&& next == match task {
                    Some(t) => t,
                    None => idle,
                }
            };
        lemma_search_between::<S>(steps, cpu, steps.len() - 1);
        let end = steps.last();
        assert(end == steps[steps.len() - 1]);
        if end.run_queue.len() > 0 {
            lemma_picked_between(end, cpu);
            lemma_free(end, cpu);
            if task is None {
                let first = end.run_queue[0].id;
                lemma_requeued_between::<S>(system::picked(end), cpu, first, false, sel);
                lemma_requeued_wf::<S>(system::picked(end), first, false, sel);
            }
        }
    } else if mid.run_queue.len() > 0 {
        lemma_picked_between(mid, cpu);
        lemma_free(mid, cpu);
    }
}

/// The first task of the queue runs on no CPU but perhaps `cpu`.
proof fn lemma_free(v: SystemView, cpu: usize)
    requires
        between(v, cpu),
        v.run_queue.len() > 0,
    ensures
        forall|c: int| c != cpu ==> !runs(system::picked(v), c, v.run_queue[0].id),
        v.state(v.run_queue[0].id) == TaskState::Runable,
        !v.inner(v.run_queue[0].id).is_idle,
{
    let task = v.run_queue[0].id;
    assert(sched::listed(v.run_queue, task));
    assert(v.slots[task as int] is RunQueue);
    assert forall|c: int| c != cpu implies !runs(system::picked(v), c, task) by {
        if runs(system::picked(v), c, task) {
            assert(v.current[c] is Some);
        }
    }
}

/// CPU `cpu` takes a task that is in order to be run.
proof fn lemma_switched(v: SystemView, cpu: usize, prev: AxTaskRef, next: AxTaskRef)
    requires
        between(v, cpu),
        v.running(cpu),
        v.curr(cpu) == prev,
        v.valid(next),
        v.slots[next as int] is Held,
        forall|c: int| c != cpu ==> !runs(v, c, next),
        v.idle[cpu as int] is Some,
        next == v.idle[cpu as int]->0 || !v.inner(next).is_idle,
    ensures
        orderly(run_queue::switched(v, cpu, prev, next)),
        run_queue::switched(v, cpu, prev, next).running(cpu),
        run_queue::switched(v, cpu, prev, next).curr(cpu) == next,
{
    let post = run_queue::switched(v, cpu, prev, next);
    let t = run_queue::claimed(v, next);
    assert(post.tasks == t.tasks);
    assert(post.current =~= v.current.update(cpu as int, Some(next)));
    assert forall|i: int| 0 <= i < v.tasks.len() && i != next implies (#[trigger] post.tasks[i])
        == v.tasks[i] by {
    }
    assert(post.tasks[next as int].inner.is_idle == v.tasks[next as int].inner.is_idle);
    assert forall|c: int| 0 <= c < post.current.len() && c != cpu implies (
    #[trigger] post.current[c]) != Some(next) by {
        assert(!runs(v, c, next));
    }
    assert forall|c: int|
        0 <= c < post.current.len() && (
        #[trigger] post.current[c]) is Some implies post.tasks[post.current[c]->0 as int].state
        == TaskState::Running by {
        if c != cpu {
            assert(v.current[c] is Some);
        }
    }
    assert(idle_orderly(post)) by {
        assert forall|c: int, d: int|
            0 <= c < post.idle.len() && 0 <= d < post.current.len() && c != d && (
            #[trigger] post.idle[c]) is Some && (
            #[trigger] post.current[d]) is Some implies post.idle[c] != post.current[d] by {
            assert(v.idle[c] is Some);
            if d != cpu {
                assert(v.current[d] is Some);
            } else if next == v.idle[cpu as int]->0 {
                assert(v.idle[c] != v.idle[cpu as int]);
            }
        }
    }
    assert(queue_orderly(post));
    assert(cpus_orderly(post));
    assert(post.wf());
}

/// Giving up the CPU keeps order: afterwards every CPU runs a task of its own, which is `Running` and in
/// no ready queue, and whoever waits in the queue can run. A task that cannot run on is left.
pub proof fn lemma_rescheduled<S: BaseScheduler>(
    pre: SystemView,
    cpu: usize,
    preempt: bool,
    post: SystemView,
    work: Switched,
)
    requires
        orderly_but(pre, cpu),
        run_queue::can_resched(pre, cpu),
        run_queue::rescheduled::<S>(pre, cpu, preempt, post, work),
    ensures
        orderly(post),
        post.running(cpu),
        work == if post.curr(cpu) == pre.curr(cpu) {
            Switched::Stay
        } else {
            Switched::To(post.switch_of(pre.curr(cpu), post.curr(cpu)))
        },
        pre.state(pre.curr(cpu)) != TaskState::Runable && !pre.inner(pre.curr(cpu)).is_idle ==> {
            &&& post.curr(cpu) != pre.curr(cpu)
            &&& post.tasks[pre.curr(cpu) as int] == pre.tasks[pre.curr(cpu) as int]
            &&& post.slots[pre.curr(cpu) as int] is Held
        },
        pre.config.preempt ==> !post.inner(post.curr(cpu)).preempt_pending,
        post.tasks.len() == pre.tasks.len(),
        forall|t: int|
            0 <= t < pre.tasks.len() && t != post.curr(cpu) ==> (#[trigger] post.tasks[t])
                == pre.tasks[t],
{
    let prev = pre.curr(cpu);
    let (mid, sel, next) = choose|mid: SystemView, sel: SystemView, next: AxTaskRef|
        {
            &&& #[trigger] run_queue::put_back::<S>(pre, cpu, preempt, mid)
            &&& #[trigger] run_queue::chosen::<S>(mid, cpu, next, sel)
            &&& post == run_queue::switched(sel, cpu, prev, next)
            &&& work == run_queue::switch_work(sel, prev, next)
        };
    assert(pre.current[cpu as int] is Some);
    assert(between(pre, cpu));
    if pre.state(prev) == TaskState::Runable && !pre.inner(prev).is_idle {
        assert forall|c: int| c != cpu implies !runs(pre, c, prev) by {
            if runs(pre, c, prev) {
                assert(pre.current[c] != pre.current[cpu as int]);
            }
        }
        lemma_requeued_between::<S>(pre, cpu, prev, preempt, mid);
    }
    lemma_chosen::<S>(mid, cpu, next, sel);
    lemma_switched(sel, cpu, prev, next);
}

/// A task that can run, has its item and is no idle task: unless a CPU runs it, nobody will.
pub open spec fn held_runable(v: SystemView, t: int) -> bool {
    &&& 0 <= t < v.tasks.len()
    &&& v.tasks[t].state == TaskState::Runable
    &&& !v.tasks[t].inner.is_idle
    &&& v.slots[t] is Held
}

/// No task that can run is lost when a CPU gives up its task: it waits in the queue or runs, unless it
/// did neither before.
pub proof fn lemma_none_lost<S: BaseScheduler>(
    pre: SystemView,
    cpu: usize,
    preempt: bool,
    post: SystemView,
    work: Switched,
    t: int,
)
    requires
        orderly_but(pre, cpu),
        run_queue::can_resched(pre, cpu),
        run_queue::rescheduled::<S>(pre, cpu, preempt, post, work),
        held_runable(post, t),
    ensures
        held_runable(pre, t),
        t != pre.curr(cpu),
{
    let prev = pre.curr(cpu);
    let (mid, sel, next) = choose|mid: SystemView, sel: SystemView, next: AxTaskRef|
        {
            &&& #[trigger] run_queue::put_back::<S>(pre, cpu, preempt, mid)
            &&& #[trigger] run_queue::chosen::<S>(mid, cpu, next, sel)
            &&& post == run_queue::switched(sel, cpu, prev, next)
            &&& work == run_queue::switch_work(sel, prev, next)
        };
    assert(pre.current[cpu as int] is Some);
    assert(between(pre, cpu));
    if pre.state(prev) == TaskState::Runable && !pre.inner(prev).is_idle {
        assert forall|c: int| c != cpu implies !runs(pre, c, prev) by {
            if runs(pre, c, prev) {
                assert(pre.current[c] != pre.current[cpu as int]);
            }
        }
        lemma_requeued_between::<S>(pre, cpu, prev, preempt, mid);
        lemma_requeued_wf::<S>(pre, prev, preempt, mid);
    }
    lemma_chosen::<S>(mid, cpu, next, sel);
    assert(post.tasks[next as int].state == TaskState::Running);
    assert(t != next);
    assert(sel.tasks[t] == post.tasks[t]);
}

/// A task that yields keeps order.
pub proof fn lemma_yielded<S: BaseScheduler>(
    pre: SystemView,
    cpu: usize,
    preempt: bool,
    post: SystemView,
    work: Switched,
)
    requires
        orderly(pre),
        run_queue::can_resched(pre, cpu),
        run_queue::rescheduled::<S>(
            pre.with_state(pre.curr(cpu), TaskState::Runable),
            cpu,
            preempt,
            post,
            work,
        ),
    ensures
        orderly(post),
        post.running(cpu),
{
    let v = pre.with_state(pre.curr(cpu), TaskState::Runable);
    lemma_state_changed(pre, cpu, TaskState::Runable);
    lemma_rescheduled::<S>(v, cpu, preempt, post, work);
}

/// The task of CPU `cpu` changes its state, before the CPU gives it up.
pub proof fn lemma_state_changed(pre: SystemView, cpu: usize, state: TaskState)
    requires
        orderly(pre),
        pre.running(cpu),
        state == TaskState::Blocked ==> !pre.inner(pre.curr(cpu)).is_idle,
    ensures
        orderly_but(pre.with_state(pre.curr(cpu), state), cpu),
{
    let curr = pre.curr(cpu);
    let v = pre.with_state(curr, state);
    assert(pre.current[cpu as int] is Some);
    assert(pre.slots[curr as int] is Held);
    assert forall|t: int| 0 <= t < v.tasks.len() implies (#[trigger] v.tasks[t]).inner
        == pre.tasks[t].inner by {
    }
    assert forall|c: int|
        0 <= c < v.current.len() && c != cpu && (
        #[trigger] v.current[c]) is Some implies v.tasks[v.current[c]->0 as int].state
        == TaskState::Running by {
        assert(pre.current[c] != pre.current[cpu as int]);
    }
}

/// A task that blocks keeps order. Unless it was woken in the meantime it is `Blocked`, no CPU runs it,
/// and it is in no ready queue; if it was, it runs on with its wake-ups used up.
pub proof fn lemma_blocked<S: BaseScheduler>(
    pre: SystemView,
    cpu: usize,
    post: SystemView,
    work: Switched,
)
    requires
        orderly(pre),
        run_queue::can_block(pre, cpu),
        run_queue::blocked::<S>(pre, cpu, post, work),
    ensures
        orderly(post),
        post.running(cpu),
        pre.inner(pre.curr(cpu)).wakeup_cnt == 0 ==> {
            &&& post.state(pre.curr(cpu)) == TaskState::Blocked
            &&& post.slots[pre.curr(cpu) as int] is Held
            &&& forall|c: int| !runs(post, c, pre.curr(cpu))
        },
        pre.inner(pre.curr(cpu)).wakeup_cnt > 0 ==> post.curr(cpu) == pre.curr(cpu) && post.inner(
            pre.curr(cpu),
        ).wakeup_cnt == 0,
{
    let curr = pre.curr(cpu);
    if pre.inner(curr).wakeup_cnt > 0 {
        assert(pre.current[cpu as int] is Some);
        lemma_same_order(pre, post);
    }
    if pre.inner(curr).wakeup_cnt == 0 {
        let v = pre.with_state(curr, TaskState::Blocked);
        lemma_state_changed(pre, cpu, TaskState::Blocked);
        assert(pre.current[cpu as int] is Some);
        lemma_rescheduled::<S>(v, cpu, false, post, work);
        assert forall|c: int| !runs(post, c, curr) by {
            if runs(post, c, curr) {
                assert(post.current[c] is Some);
            }
        }
    }
}

/// Waking a task keeps order. A blocked task is in the queue and can run.
pub proof fn lemma_woken<S: BaseScheduler>(
    pre: SystemView,
    cpu: usize,
    task: AxTaskRef,
    resched: bool,
    post: SystemView,
)
    requires
        orderly(pre),
        pre.valid(task),
        !(pre.slots[task as int] is Processor),
        pre.state(task) == TaskState::Blocked ==> run_queue::can_wake(pre, cpu, resched),
        run_queue::woken::<S>(pre, cpu, task, resched, post),
    ensures
        orderly(post),
        pre.state(task) == TaskState::Blocked ==> {
            &&& post.state(task) == TaskState::Runable
            &&& post.slots[task as int] is RunQueue
            &&& sched::listed(post.run_queue, task)
        },
{
    assert forall|c: int|
        0 <= c < pre.current.len() && (#[trigger] pre.current[c]) is Some implies pre.state(
        pre.current[c]->0,
    ) != TaskState::Blocked by {
    }
    lemma_woken_frame::<S>(pre, cpu, task, resched, post);
    lemma_kept_order(pre, 0, task, post);
    run_queue::lemma_woken::<S>(pre, cpu, task, resched, post);
    assert forall|c: int|
        0 <= c < post.current.len() && (
        #[trigger] post.current[c]) is Some implies post.tasks[post.current[c]->0 as int].state
        == TaskState::Running by {
        assert(pre.current[c] is Some);
        assert(run_queue::kept_by_waking(
            pre.tasks[pre.current[c]->0 as int],
            post.tasks[pre.current[c]->0 as int],
        ));
    }
}

/// What waking a task changes: nothing but that task, and what is pending; a blocked task goes into the
/// queue.
proof fn lemma_woken_frame<S: BaseScheduler>(
    pre: SystemView,
    cpu: usize,
    task: AxTaskRef,
    resched: bool,
    post: SystemView,
)
    requires
        pre.wf(),
        queue_orderly(pre),
        pre.valid(task),
        !(pre.slots[task as int] is Processor),
        pre.state(task) == TaskState::Blocked ==> run_queue::can_wake(pre, cpu, resched),
        run_queue::woken::<S>(pre, cpu, task, resched, post),
    ensures
        post.wf(),
        run_queue::waking_keeps(pre, post),
        woken_only(pre, task, post),
        pre.state(task) == TaskState::Blocked ==> sched::listed(post.run_queue, task),
{
    if pre.state(task) == TaskState::Blocked {
        let ready = pre.with_state(task, TaskState::Runable);
        assert(!(pre.slots[task as int] is RunQueue));
        let mid = system::queued_as(ready, task, post.run_queue);
        lemma_enqueued_wf::<S>(ready, task, mid);
        if resched && pre.config.preempt {
            assert(pre.current[cpu as int] is Some);
        }
    }
    run_queue::lemma_woken::<S>(pre, cpu, task, resched, post);
}

/// Only the task `task` changes its state or its place, and only from `Blocked` into the queue.
pub open spec fn woken_only(pre: SystemView, task: AxTaskRef, post: SystemView) -> bool {
    &&& post.slots.len() == pre.slots.len()
    &&& forall|t: int|
        0 <= t < pre.slots.len() && t != task ==> (#[trigger] post.slots[t]) == pre.slots[t]
    &&& forall|t: int|
        0 <= t < pre.tasks.len() && t != task ==> (#[trigger] post.tasks[t]).state
            == pre.tasks[t].state
    &&& if pre.state(task) == TaskState::Blocked {
        post.state(task) == TaskState::Runable && post.slots[task as int] is RunQueue
    } else {
        post.state(task) == pre.state(task) && post.slots[task as int] == pre.slots[task as int]
    }
}

/// Order is kept by waking, also while CPU `cpu` is about to give up its task.
proof fn lemma_kept_order(pre: SystemView, cpu: usize, task: AxTaskRef, post: SystemView)
    requires
        orderly_but(pre, cpu),
        none_running_blocked(pre),
        pre.valid(task),
        post.wf(),
        run_queue::waking_keeps(pre, post),
        woken_only(pre, task, post),
    ensures
        orderly_but(post, cpu),
{
    assert forall|t: int| 0 <= t < post.tasks.len() implies (
    #[trigger] post.tasks[t]).inner.is_idle == pre.tasks[t].inner.is_idle by {
        assert(run_queue::kept_by_waking(pre.tasks[t], post.tasks[t]));
    }
    assert forall|c: int|
        0 <= c < post.current.len() && (#[trigger] post.current[c]) is Some implies {
        &&& post.state(post.current[c]->0) == pre.state(pre.current[c]->0)
        &&& post.slots[post.current[c]->0 as int] is Held
    } by {
        assert(pre.current[c] is Some);
    }
    assert forall|c: int|
        0 <= c < post.idle.len() && (#[trigger] post.idle[c]) is Some implies {
        &&& post.slots[post.idle[c]->0 as int] is Held
        &&& post.tasks[post.idle[c]->0 as int].inner.is_idle
    } by {
        assert(pre.idle[c] is Some);
    }
    assert(queue_orderly(post));
    assert(idle_orderly(post));
    assert(cpus_orderly(post));
    assert(others_running(post, cpu));
}

/// Waking a task without asking for preemption keeps order, also while CPU `cpu` is about to give up its
/// task.
pub proof fn lemma_woken_kept<S: BaseScheduler>(
    pre: SystemView,
    cpu: usize,
    task: AxTaskRef,
    post: SystemView,
)
    requires
        orderly_but(pre, cpu),
        none_running_blocked(pre),
        forall|t: int| 0 <= t < pre.slots.len() ==> !((#[trigger] pre.slots[t]) is Processor),
        pre.valid(task),
        run_queue::woken::<S>(pre, cpu, task, false, post),
    ensures
        orderly_but(post, cpu),
        none_running_blocked(post),
        forall|t: int| 0 <= t < post.slots.len() ==> !((#[trigger] post.slots[t]) is Processor),
        run_queue::waking_keeps(pre, post),
        post.state(task) != TaskState::Blocked,
{
    assert(!(pre.slots[task as int] is Processor));
    lemma_woken_frame::<S>(pre, cpu, task, false, post);
    lemma_kept_order(pre, cpu, task, post);
    assert forall|c: int|
        0 <= c < post.current.len() && (#[trigger] post.current[c]) is Some implies post.state(
        post.current[c]->0,
    ) != TaskState::Blocked by {
        assert(pre.current[c] is Some);
        assert(run_queue::kept_by_waking(
            pre.tasks[pre.current[c]->0 as int],
            post.tasks[pre.current[c]->0 as int],
        ));
    }
}

/// Order does not depend on what else a task holds.
pub proof fn lemma_other_order(pre: SystemView, cpu: usize, post: SystemView)
    requires
        orderly_but(pre, cpu),
        post == (SystemView { tasks: post.tasks, ..pre }),
        post.tasks.len() == pre.tasks.len(),
        forall|t: int|
            #![trigger post.tasks[t]]
            0 <= t < pre.tasks.len() ==> post.tasks[t].state == pre.tasks[t].state
                && post.tasks[t].inner.is_idle == pre.tasks[t].inner.is_idle,
    ensures
        orderly_but(post, cpu),
{
    assert(queue_orderly(post));
    assert(cpus_orderly(post));
    assert(idle_orderly(post));
}

/// Adding a task that can run, that no CPU runs and that is no idle task keeps order.
pub proof fn lemma_added<S: BaseScheduler>(pre: SystemView, task: AxTaskRef, post: SystemView)
    requires
        orderly(pre),
        pre.valid(task),
        pre.state(task) == TaskState::Runable,
        !pre.inner(task).is_idle,
        system::enqueued::<S>(pre, task, post),
    ensures
        orderly(post),
        !(post.slots[task as int] is Held),
{
    lemma_enqueued_wf::<S>(pre, task, post);
    assert forall|c: int|
        0 <= c < post.current.len() && (
        #[trigger] post.current[c]) is Some implies post.slots[post.current[c]->0 as int] is Held by {
        assert(pre.current[c] is Some);
    }
    assert forall|c: int|
        0 <= c < post.idle.len() && (
        #[trigger] post.idle[c]) is Some implies post.slots[post.idle[c]->0 as int] is Held by {
        assert(pre.idle[c] is Some);
    }
}

/// A timer tick keeps order.
pub proof fn lemma_ticked<S: BaseScheduler>(
    pre: SystemView,
    cpu: usize,
    ready: Ready,
    post: SystemView,
)
    requires
        orderly(pre),
        run_queue::can_tick::<S>(pre, cpu),
        run_queue::ticked::<S>(pre, cpu, ready, post),
    ensures
        orderly(post),
        post.current == pre.current,
{
    let curr = pre.curr(cpu);
    assert(pre.current[cpu as int] is Some);
    if !pre.inner(curr).is_idle {
        let (e, due) = choose|e: Entry, due: bool|
            {
                &&& #[trigger] S::ticks(pre.slots[curr as int]->Held_0, ready, e, due)
                &&& post == if due && pre.config.preempt {
                    pre.with_slot(curr, Slot::Held(e)).with_pending(curr, true)
                } else {
                    pre.with_slot(curr, Slot::Held(e))
                }
            };
        S::ticks_keeps(pre.slots[curr as int]->Held_0, ready, e, due);
        system::lemma_held_sound(pre.run_queue, pre.slots, curr);
        S::ticked_sound(pre.run_queue, pre.slots[curr as int]->Held_0);
        system::lemma_slot_sound(pre.run_queue, pre.slots, curr, Slot::Held(e));
        assert(post.slots[curr as int] is Held);
        lemma_same_order(pre, post);
    }
}

/// A change of priority keeps order.
pub proof fn lemma_reprioritised<S: BaseScheduler>(pre: SystemView, cpu: usize, prio: isize)
    requires
        orderly(pre),
        pre.running(cpu),
    ensures
        orderly(run_queue::reprioritised::<S>(pre, cpu, prio)),
{
    let curr = pre.curr(cpu);
    assert(pre.current[cpu as int] is Some);
    let e = pre.slots[curr as int]->Held_0;
    S::reweighed_id(e, prio);
    system::lemma_held_sound(pre.run_queue, pre.slots, curr);
    if S::accepts(prio) {
        system::lemma_slot_sound(
            pre.run_queue,
            pre.slots,
            curr,
            Slot::Held(S::reweighed(e, prio)),
        );
    }
    lemma_same_order(pre, run_queue::reprioritised::<S>(pre, cpu, prio));
}

/// Order depends on the states of the tasks, on who is idle, and on which tasks have their items.
proof fn lemma_same_order(pre: SystemView, post: SystemView)
    requires
        orderly(pre),
        post.wf(),
        post.current == pre.current,
        post.idle == pre.idle,
        post.tasks.len() == pre.tasks.len(),
        post.slots.len() == pre.slots.len(),
        forall|t: int|
            #![trigger post.tasks[t]]
            0 <= t < pre.tasks.len() ==> post.tasks[t].state == pre.tasks[t].state
                && post.tasks[t].inner.is_idle == pre.tasks[t].inner.is_idle,
        forall|t: int|
            #![trigger post.slots[t]]
            0 <= t < pre.slots.len() ==> (post.slots[t] is Held <==> pre.slots[t] is Held) && (
            post.slots[t] is RunQueue <==> pre.slots[t] is RunQueue),
    ensures
        orderly(post),
{
    assert(queue_orderly(post));
    assert(cpus_orderly(post));
    assert(idle_orderly(post));
}

} // verus!
