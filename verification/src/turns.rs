//! Whose turn it is.
//!
//! The laws here say who runs when a CPU goes over to another task, and where the task that it leaves waits,
//! in terms of the ready queues themselves: for the shared run queue under any policy, and for each policy.
use crate::block;
use crate::effects;
use crate::kernel::KernelView;
use crate::order;
use crate::order_on;
use crate::processor;
use crate::processor_ref;
use crate::run_queue;
use crate::sched;
use crate::sched::fair;
use crate::sched::fair::Fair;
use crate::sched::fifo::Fifo;
use crate::sched::round_robin::RoundRobin;
use crate::sched::{BaseScheduler, Entry};
use crate::schedule;
use crate::switching;
use crate::system;
use crate::system::{AxTaskRef, Slot, Switched, SystemView};
use crate::task::TaskState;
use crate::wait_queue;
use vstd::prelude::*;

verus! {

/// Who is chosen from the shared run queue. Nobody runs on a CPU that it may not run on, but for the idle
/// task; the first of the queue runs if it may; and the idle task runs if nobody waits.
proof fn lemma_chosen_next<S: BaseScheduler>(
    pre: SystemView,
    cpu: usize,
    next: AxTaskRef,
    post: SystemView,
)
    requires
        pre.wf(),
        cpu < pre.idle.len(),
        pre.idle[cpu as int] is Some,
        run_queue::chosen::<S>(pre, cpu, next, post),
    ensures
        pre.run_queue.list.len() == 0 ==> next == pre.idle[cpu as int]->0,
        pre.run_queue.list.len() > 0 && (!pre.config.monolithic
            || pre.tasks[pre.run_queue.list[0].id as int].inner.cpu_set.holds(cpu as int)) ==> {
            &&& next == pre.run_queue.list[0].id
            &&& post == system::picked(pre)
        },
        pre.config.monolithic ==> next == pre.idle[cpu as int]->0
            || pre.tasks[next as int].inner.cpu_set.holds(cpu as int),
{
    if pre.config.monolithic {
        let (steps, task) = choose|steps: Seq<SystemView>, task: Option<AxTaskRef>|
            {
                &&& #[trigger] run_queue::search::<S>(steps, cpu)
                &&& steps[0] == pre
                &&& #[trigger] run_queue::found::<S>(steps, cpu, task, post)
                &&& next == match task {
                    Some(t) => t,
                    None => pre.idle[cpu as int]->0,
                }
            };
        switching::lemma_search_frame::<S>(steps, cpu, steps.len() - 1);
        if steps.len() > 1 {
            assert(run_queue::passed_over::<S>(steps[0], cpu, steps[0int + 1]));
        } else {
            assert(!run_queue::seen_before(steps, pre.run_queue[0].id));
        }
    }
}

/// Who runs when a CPU reschedules from the shared run queue, and what becomes of the task that it ran.
/// Nobody runs on a CPU that it may not run on, but for the idle task. If the task cannot run on, the first
/// of the queue runs if it may, or the idle task if nobody waits. If it can, it goes on if nobody else
/// waits, and else it or the first of the queue runs.
pub proof fn lemma_resched_next<S: BaseScheduler>(
    pre: SystemView,
    cpu: usize,
    preempt: bool,
    post: SystemView,
    work: Switched,
)
    requires
        pre.wf(),
        run_queue::can_resched(pre, cpu),
        pre.slots[pre.current[cpu as int]->0 as int] is Held,
        run_queue::rescheduled::<S>(pre, cpu, preempt, post, work),
    ensures
        ({
            let list = pre.run_queue.list;
            let prev = pre.current[cpu as int]->0;
            let next = post.current[cpu as int]->0;
            let idle = pre.idle[cpu as int]->0;
            let was = pre.tasks[prev as int];
            let goes_back = was.state == TaskState::Runable && !was.inner.is_idle;
            let first_may = !pre.config.monolithic
                || pre.tasks[list[0].id as int].inner.cpu_set.holds(cpu as int);
            let prev_may = !pre.config.monolithic || was.inner.cpu_set.holds(cpu as int);
            &&& pre.config.monolithic ==> next == idle
                || pre.tasks[next as int].inner.cpu_set.holds(cpu as int)
            &&& !goes_back && list.len() == 0 ==> next == idle
            &&& !goes_back && list.len() > 0 && first_may ==> next == list[0].id
                && post.slots[next as int] == Slot::Held(list[0])
            &&& goes_back && list.len() == 0 && prev_may ==> next == prev
            &&& goes_back && list.len() > 0 && first_may && prev_may ==> next == prev || next
                == list[0].id
            &&& goes_back && list.len() > 0 && first_may && prev_may && next != prev ==> {
                &&& post.slots[prev as int] is RunQueue
                &&& post.tasks[prev as int].state == TaskState::Runable
            }
        }),
{
    let prev = pre.curr(cpu);
    let (mid, sel, next) = choose|mid: SystemView, sel: SystemView, next: AxTaskRef|
        {
            &&& #[trigger] run_queue::put_back::<S>(pre, cpu, preempt, mid)
            &&& #[trigger] run_queue::chosen::<S>(mid, cpu, next, sel)
            &&& post == run_queue::switched(sel, cpu, prev, next)
            &&& work == run_queue::switch_work(sel, prev, next)
        };
    assert(pre.current[cpu as int] is Some);
    let list = pre.run_queue.list;
    if list.len() > 0 {
        assert(sched::listed(pre.run_queue, list[0].id));
        assert(list[0].id != prev);
    }
    let goes_back = pre.state(prev) == TaskState::Runable && !pre.inner(prev).is_idle;
    if goes_back {
        order::lemma_requeued_wf::<S>(pre, prev, preempt, mid);
        let e = pre.slots[prev as int]->Held_0;
        system::lemma_held_sound(pre.run_queue, pre.slots, prev);
        S::puts_inserts(e, preempt, pre.run_queue, mid.run_queue);
        let x = choose|x: Entry|
            x.id == e.id && #[trigger] sched::inserted(pre.run_queue, x, mid.run_queue);
        switching::lemma_first_of_inserted(pre.run_queue, x, mid.run_queue);
    }
    assert(mid.tasks == pre.tasks);
    switching::lemma_chosen_frame::<S>(mid, cpu, next, sel);
    lemma_chosen_next::<S>(mid, cpu, next, sel);
    switching::lemma_switched_leaves(sel, cpu, prev, next);
}

/// Taking turns when a CPU schedules, first come first served and round robin. The first of the ready queue
/// runs. The task that was left waits behind all others, under round robin with a new time slice; but one
/// that was preempted with ticks left keeps them and comes next.
pub proof fn lemma_schedule_turns(
    pre: KernelView,
    cpu: usize,
    post: KernelView,
    work: Switched,
    e: Entry,
)
    requires
        pre.wf(),
        processor_ref::runs_on(pre, cpu),
        pre.sys.slots[pre.sys.current[cpu as int]->0 as int] == Slot::Held(e),
        pre.sys.tasks[pre.sys.current[cpu as int]->0 as int].state == TaskState::Runable,
        !pre.sys.tasks[pre.sys.current[cpu as int]->0 as int].inner.is_idle,
        pre.processors[cpu as int]->0.ready.list.len() > 0,
        !pre.sys.tasks[pre.processors[cpu as int]->0.ready.list[0].id as int].inner.is_idle,
    ensures
        ({
            let list = pre.processors[cpu as int]->0.ready.list;
            let after = post.processors[cpu as int]->0.ready.list;
            let preempted = pre.sys.config.preempt
                && pre.sys.tasks[pre.sys.current[cpu as int]->0 as int].inner.preempt_pending;
            &&& schedule::scheduled::<Fifo>(pre, cpu, post, work) ==> after == list.skip(1).push(e)
            &&& schedule::scheduled::<RoundRobin>(pre, cpu, post, work) ==> {
                &&& preempted && e.budget > 0 ==> after == seq![e] + list.skip(1)
                &&& !(preempted && e.budget > 0) ==> after == list.skip(1).push(
                    Entry { budget: 5, ..e },
                )
            }
            &&& schedule::scheduled::<Fair>(pre, cpu, post, work) ==> {
                &&& after.contains(Entry { key: fair::run_time(e), ..e })
                &&& fair::by_run_time(list) ==> fair::by_run_time(after) && forall|i: int|
                    0 <= i < list.len() ==> list[0].key <= (#[trigger] list[i]).key
            }
        }),
{
    if schedule::scheduled::<Fifo>(pre, cpu, post, work) {
        lemma_schedule_puts::<Fifo>(pre, cpu, post, work, e);
    }
    if schedule::scheduled::<RoundRobin>(pre, cpu, post, work) {
        lemma_schedule_puts::<RoundRobin>(pre, cpu, post, work, e);
    }
    if schedule::scheduled::<Fair>(pre, cpu, post, work) {
        lemma_schedule_puts::<Fair>(pre, cpu, post, work, e);
        let before = pre.proc(cpu).ready.rest();
        lemma_fair_put(before.list, Entry { key: fair::run_time(e), ..e }, post.proc(cpu).ready.list);
    }
}

/// A task that is put into a fair queue is in it, and the queue stays in order.
proof fn lemma_fair_put(before: Seq<Entry>, x: Entry, after: Seq<Entry>)
    requires
        fair::placed(before, x, after),
    ensures
        after.contains(x),
        fair::by_run_time(before) ==> fair::by_run_time(after),
{
    let at = choose|at: int|
        {
            &&& 0 <= at <= before.len()
            &&& after == #[trigger] before.insert(at, x)
            &&& forall|i: int| 0 <= i < at ==> (#[trigger] before[i]).key <= x.key
            &&& forall|i: int| at <= i < before.len() ==> (#[trigger] before[i]).key > x.key
        };
    assert(after[at] == x);
    if fair::by_run_time(before) {
        fair::lemma_by_run_time(before, x, after);
    }
}

/// The ready queue once a CPU has left a task that can run on.
proof fn lemma_schedule_puts<S: BaseScheduler>(
    pre: KernelView,
    cpu: usize,
    post: KernelView,
    work: Switched,
    e: Entry,
)
    requires
        pre.wf(),
        processor_ref::runs_on(pre, cpu),
        pre.sys.slots[pre.sys.curr(cpu) as int] == Slot::Held(e),
        pre.sys.state(pre.sys.curr(cpu)) == TaskState::Runable,
        !pre.sys.inner(pre.sys.curr(cpu)).is_idle,
        pre.proc(cpu).ready.len() > 0,
        !pre.sys.inner(pre.proc(cpu).ready[0].id).is_idle,
        schedule::scheduled::<S>(pre, cpu, post, work),
    ensures
        S::puts(
            e,
            pre.sys.config.preempt && pre.sys.inner(pre.sys.curr(cpu)).preempt_pending,
            pre.proc(cpu).ready.rest(),
            post.proc(cpu).ready,
        ),
{
    let prev = pre.sys.curr(cpu);
    let first = processor::next_on(pre, cpu);
    let sel = processor::picked_on(pre, cpu);
    processor::lemma_picked_on(pre, cpu);
    let (mid, next) = choose|mid: KernelView, next: AxTaskRef|
        {
            &&& #[trigger] schedule::settled::<S>(sel, cpu, first, mid, next)
            &&& post == schedule::moved(mid, cpu, prev, next)
            &&& work == schedule::move_work(mid.sys, prev, next)
        };
    assert(pre.sys.current[cpu as int] is Some);
    assert(pre.processors[cpu as int] is Some);
    assert(sched::listed(pre.proc(cpu).ready, first));
    assert(first != prev);
    assert(sel.sys.slots[prev as int] == pre.sys.slots[prev as int]);
    order_on::lemma_settled_frame::<S>(sel, cpu, first, mid, next);
}

/// Taking turns when a processor reschedules, first come first served and round robin. The first of the
/// ready queue runs, and the task that was left waits behind all others, under round robin with a new time
/// slice; but one that was preempted with ticks left runs on.
pub proof fn lemma_reschedule_turns(
    pre: KernelView,
    cpu: usize,
    post: KernelView,
    work: Switched,
    e: Entry,
)
    requires
        pre.wf(),
        processor_ref::runs_on(pre, cpu),
        pre.sys.slots[pre.sys.current[cpu as int]->0 as int] == Slot::Held(e),
        pre.sys.tasks[pre.sys.current[cpu as int]->0 as int].state == TaskState::Runable,
        !pre.sys.tasks[pre.sys.current[cpu as int]->0 as int].inner.is_idle,
        pre.processors[cpu as int]->0.ready.list.len() > 0,
    ensures
        ({
            let list = pre.processors[cpu as int]->0.ready.list;
            let after = post.processors[cpu as int]->0.ready.list;
            let prev = pre.sys.current[cpu as int]->0;
            let next = post.sys.current[cpu as int]->0;
            let preempted = pre.sys.config.preempt
                && pre.sys.tasks[prev as int].inner.preempt_pending;
            &&& processor_ref::rescheduled_on::<Fifo>(pre, cpu, post, work) ==> {
                &&& next == list[0].id
                &&& after == list.skip(1).push(e)
            }
            &&& processor_ref::rescheduled_on::<RoundRobin>(pre, cpu, post, work) ==> {
                &&& preempted && e.budget > 0 ==> next == prev && after == list
                &&& !(preempted && e.budget > 0) ==> next == list[0].id && after
                    == list.skip(1).push(Entry { budget: 5, ..e })
            }
            &&& processor_ref::rescheduled_on::<Fair>(pre, cpu, post, work) && fair::by_run_time(
                list,
            ) ==> {
                &&& next == prev ==> fair::run_time(e) < list[0].key
                &&& next != prev ==> next == list[0].id && list[0].key <= fair::run_time(e)
                &&& fair::by_run_time(after)
            }
        }),
{
    let prev = pre.sys.curr(cpu);
    assert(pre.sys.current[cpu as int] is Some);
    assert(pre.processors[cpu as int] is Some);
    let list = pre.proc(cpu).ready.list;
    assert(sched::listed(pre.proc(cpu).ready, list[0].id));
    assert(list[0].id != prev);
    let after = post.processors[cpu as int]->0.ready.list;
    if processor_ref::rescheduled_on::<Fifo>(pre, cpu, post, work) {
        let mid = lemma_reschedule_puts::<Fifo>(pre, cpu, post, work, e);
        assert(list.push(e).skip(1) =~= list.skip(1).push(e));
    }
    if processor_ref::rescheduled_on::<RoundRobin>(pre, cpu, post, work) {
        let mid = lemma_reschedule_puts::<RoundRobin>(pre, cpu, post, work, e);
        let x = Entry { budget: 5, ..e };
        assert(list.push(x).skip(1) =~= list.skip(1).push(x));
        assert((seq![e] + list).skip(1) =~= list);
    }
    if processor_ref::rescheduled_on::<Fair>(pre, cpu, post, work) {
        let mid = lemma_reschedule_puts::<Fair>(pre, cpu, post, work, e);
        let x = Entry { key: fair::run_time(e), ..e };
        if fair::by_run_time(list) {
            lemma_fair_put(list, x, mid.list);
            lemma_fair_first(list, x, mid.list);
            assert(fair::by_run_time(mid.list.skip(1)));
        }
    }
}

/// The first of a fair queue after a task was put into it: that task exactly if it has run for less than
/// all others.
proof fn lemma_fair_first(before: Seq<Entry>, x: Entry, after: Seq<Entry>)
    requires
        fair::placed(before, x, after),
        before.len() > 0,
        before[0].id != x.id,
    ensures
        after.len() > 0,
        after[0] == x ==> x.key < before[0].key,
        after[0] != x ==> after[0] == before[0] && before[0].key <= x.key,
{
    let at = choose|at: int|
        {
            &&& 0 <= at <= before.len()
            &&& after == #[trigger] before.insert(at, x)
            &&& forall|i: int| 0 <= i < at ==> (#[trigger] before[i]).key <= x.key
            &&& forall|i: int| at <= i < before.len() ==> (#[trigger] before[i]).key > x.key
        };
    if at > 0 {
        assert(after[0] == before[0]);
    }
}

/// The ready queue once a processor has put its task back, from which it then takes the first.
proof fn lemma_reschedule_puts<S: BaseScheduler>(
    pre: KernelView,
    cpu: usize,
    post: KernelView,
    work: Switched,
    e: Entry,
) -> (ready: sched::Ready)
    requires
        pre.wf(),
        processor_ref::runs_on(pre, cpu),
        pre.sys.slots[pre.sys.curr(cpu) as int] == Slot::Held(e),
        pre.sys.state(pre.sys.curr(cpu)) == TaskState::Runable,
        !pre.sys.inner(pre.sys.curr(cpu)).is_idle,
        processor_ref::rescheduled_on::<S>(pre, cpu, post, work),
    ensures
        S::puts(
            e,
            pre.sys.config.preempt && pre.sys.inner(pre.sys.curr(cpu)).preempt_pending,
            pre.proc(cpu).ready,
            ready,
        ),
        e.id == pre.sys.curr(cpu),
        ready.len() > 0,
        post.proc(cpu).ready == ready.rest(),
        post.sys.current[cpu as int] == Some(ready[0].id),
{
    let prev = pre.sys.curr(cpu);
    let mid = choose|mid: KernelView|
        {
            &&& #[trigger] processor_ref::put_back_on::<S>(pre, cpu, mid)
            &&& post == processor_ref::switched_on(
                processor::picked_on(mid, cpu),
                cpu,
                prev,
                processor::next_on(mid, cpu),
            )
            &&& work == run_queue::switch_work(
                processor::picked_on(mid, cpu).sys,
                prev,
                processor::next_on(mid, cpu),
            )
        };
    assert(pre.sys.current[cpu as int] is Some);
    assert(pre.processors[cpu as int] is Some);
    let preempt = pre.sys.config.preempt && pre.sys.inner(prev).preempt_pending;
    switching::lemma_requeued_listed::<S>(pre, cpu, prev, preempt, mid);
    processor::lemma_picked_on(mid, cpu);
    switching::lemma_picked_on_leaves(mid, cpu);
    switching::lemma_switched_on_leaves(
        processor::picked_on(mid, cpu),
        cpu,
        prev,
        processor::next_on(mid, cpu),
    );
    mid.proc(cpu).ready
}

/// Taking turns under the shared run queue where any CPU runs any task, first come first served and round
/// robin: as on a processor, by whether the task is preempted.
pub proof fn lemma_resched_turns(
    pre: SystemView,
    cpu: usize,
    preempt: bool,
    post: SystemView,
    work: Switched,
    e: Entry,
)
    requires
        pre.wf(),
        run_queue::can_resched(pre, cpu),
        !pre.config.monolithic,
        pre.slots[pre.current[cpu as int]->0 as int] == Slot::Held(e),
        pre.tasks[pre.current[cpu as int]->0 as int].state == TaskState::Runable,
        !pre.tasks[pre.current[cpu as int]->0 as int].inner.is_idle,
        pre.run_queue.list.len() > 0,
    ensures
        ({
            let list = pre.run_queue.list;
            let after = post.run_queue.list;
            let prev = pre.current[cpu as int]->0;
            let next = post.current[cpu as int]->0;
            &&& run_queue::rescheduled::<Fifo>(pre, cpu, preempt, post, work) ==> {
                &&& next == list[0].id
                &&& after == list.skip(1).push(e)
            }
            &&& run_queue::rescheduled::<RoundRobin>(pre, cpu, preempt, post, work) ==> {
                &&& preempt && e.budget > 0 ==> next == prev && after == list
                &&& !(preempt && e.budget > 0) ==> next == list[0].id && after
                    == list.skip(1).push(Entry { budget: 5, ..e })
            }
            &&& run_queue::rescheduled::<Fair>(pre, cpu, preempt, post, work) && fair::by_run_time(
                list,
            ) ==> {
                &&& next == prev ==> fair::run_time(e) < list[0].key
                &&& next != prev ==> next == list[0].id && list[0].key <= fair::run_time(e)
                &&& fair::by_run_time(after)
            }
        }),
{
    let prev = pre.curr(cpu);
    assert(pre.current[cpu as int] is Some);
    let list = pre.run_queue.list;
    assert(sched::listed(pre.run_queue, list[0].id));
    assert(list[0].id != prev);
    if run_queue::rescheduled::<Fifo>(pre, cpu, preempt, post, work) {
        let mid = lemma_resched_puts::<Fifo>(pre, cpu, preempt, post, work, e);
        assert(list.push(e).skip(1) =~= list.skip(1).push(e));
    }
    if run_queue::rescheduled::<RoundRobin>(pre, cpu, preempt, post, work) {
        let mid = lemma_resched_puts::<RoundRobin>(pre, cpu, preempt, post, work, e);
        let x = Entry { budget: 5, ..e };
        assert(list.push(x).skip(1) =~= list.skip(1).push(x));
        assert((seq![e] + list).skip(1) =~= list);
    }
    if run_queue::rescheduled::<Fair>(pre, cpu, preempt, post, work) {
        let mid = lemma_resched_puts::<Fair>(pre, cpu, preempt, post, work, e);
        let x = Entry { key: fair::run_time(e), ..e };
        if fair::by_run_time(list) {
            lemma_fair_put(list, x, mid.list);
            lemma_fair_first(list, x, mid.list);
            assert(fair::by_run_time(mid.list.skip(1)));
        }
    }
}

/// The shared run queue once a CPU has put its task back, from which it then takes the first.
proof fn lemma_resched_puts<S: BaseScheduler>(
    pre: SystemView,
    cpu: usize,
    preempt: bool,
    post: SystemView,
    work: Switched,
    e: Entry,
) -> (ready: sched::Ready)
    requires
        pre.wf(),
        run_queue::can_resched(pre, cpu),
        !pre.config.monolithic,
        pre.slots[pre.curr(cpu) as int] == Slot::Held(e),
        pre.state(pre.curr(cpu)) == TaskState::Runable,
        !pre.inner(pre.curr(cpu)).is_idle,
        pre.run_queue.len() > 0,
        run_queue::rescheduled::<S>(pre, cpu, preempt, post, work),
    ensures
        S::puts(e, preempt, pre.run_queue, ready),
        e.id == pre.curr(cpu),
        ready.len() > 0,
        post.run_queue == ready.rest(),
        post.current[cpu as int] == Some(ready[0].id),
{
    let prev = pre.curr(cpu);
    let (mid, sel, next) = choose|mid: SystemView, sel: SystemView, next: AxTaskRef|
        {
            &&& #[trigger] run_queue::put_back::<S>(pre, cpu, preempt, mid)
            &&& #[trigger] run_queue::chosen::<S>(mid, cpu, next, sel)
            &&& post == run_queue::switched(sel, cpu, prev, next)
            &&& work == run_queue::switch_work(sel, prev, next)
        };
    assert(pre.current[cpu as int] is Some);
    order::lemma_requeued_wf::<S>(pre, prev, preempt, mid);
    system::lemma_held_sound(pre.run_queue, pre.slots, prev);
    S::puts_inserts(e, preempt, pre.run_queue, mid.run_queue);
    let x = choose|x: Entry|
        x.id == e.id && #[trigger] sched::inserted(pre.run_queue, x, mid.run_queue);
    switching::lemma_first_of_inserted(pre.run_queue, x, mid.run_queue);
    switching::lemma_chosen_frame::<S>(mid, cpu, next, sel);
    switching::lemma_switched_leaves(sel, cpu, prev, next);
    mid.run_queue
}

/// A task that is put back after it was passed over waits behind all others.
spec fn passes_to_the_end<S: BaseScheduler>() -> bool {
    forall|e: Entry, before: sched::Ready, after: sched::Ready| #[trigger]
        S::puts(e, false, before, after) ==> {
            &&& after.list.len() == before.list.len() + 1
            &&& after.list.last().id == e.id
            &&& forall|j: int|
                0 <= j < before.list.len() ==> (#[trigger] after.list[j]).id == before.list[j].id
        }
}

/// Passing over tasks turns the queue round.
proof fn lemma_search_turns<S: BaseScheduler>(steps: Seq<SystemView>, cpu: usize, i: int)
    requires
        passes_to_the_end::<S>(),
        run_queue::search::<S>(steps, cpu),
        steps[0].wf(),
        0 <= i < steps.len(),
        i <= steps[0].run_queue.list.len(),
    ensures
        steps[i].wf(),
        steps[i].tasks == steps[0].tasks,
        steps[i].run_queue.list.len() == steps[0].run_queue.list.len(),
        forall|j: int|
            0 <= j < steps[0].run_queue.list.len() ==> (#[trigger] steps[i].run_queue.list[j]).id
                == steps[0].run_queue.list[if i + j < steps[0].run_queue.list.len() {
                i + j
            } else {
                i + j - steps[0].run_queue.list.len()
            }].id,
        forall|j: int|
            0 <= j < i && j < steps[0].run_queue.list.len()
                ==> !steps[0].tasks[#[trigger] steps[0].run_queue.list[j].id as int].inner.cpu_set.holds(
                cpu as int,
            ),
    decreases i,
{
    switching::lemma_search_frame::<S>(steps, cpu, i);
    if i > 0 {
        lemma_search_turns::<S>(steps, cpu, i - 1);
        let v = steps[i - 1];
        let list = steps[0].run_queue.list;
        let n = list.len();
        assert(run_queue::passed_over::<S>(v, cpu, steps[i - 1 + 1]));
        let task = v.run_queue[0].id;
        assert(v.run_queue.list[0].id == list[i - 1].id);
        system::lemma_picked(v);
        let w = system::picked(v);
        assert(w.slots[task as int] == Slot::Held(v.run_queue[0]));
        assert(S::puts(v.run_queue[0], false, w.run_queue, steps[i].run_queue));
        assert forall|j: int| 0 <= j < n implies (#[trigger] steps[i].run_queue.list[j]).id == list[if i
            + j < n {
            i + j
        } else {
            i + j - n
        }].id by {
            if j < n - 1 {
                assert(steps[i].run_queue.list[j].id == w.run_queue.list[j].id);
                assert(w.run_queue.list[j] == v.run_queue.list[j + 1]);
            }
        }
    }
}

/// First come first served and round robin, where tasks may run on some CPUs only: the idle task is chosen
/// from the shared run queue only if nobody in it may run on the CPU, and otherwise the first who may.
proof fn lemma_search_finds<S: BaseScheduler>(
    pre: SystemView,
    cpu: usize,
    next: AxTaskRef,
    post: SystemView,
    at: int,
)
    requires
        passes_to_the_end::<S>(),
        pre.wf(),
        pre.config.monolithic,
        run_queue::chosen::<S>(pre, cpu, next, post),
        0 <= at < pre.run_queue.list.len(),
        pre.tasks[pre.run_queue.list[at].id as int].inner.cpu_set.holds(cpu as int),
        forall|i: int|
            0 <= i < at ==> !pre.tasks[#[trigger] pre.run_queue.list[i].id as int].inner.cpu_set.holds(
                cpu as int,
            ),
    ensures
        next == pre.run_queue.list[at].id,
{
    let (steps, task) = choose|steps: Seq<SystemView>, task: Option<AxTaskRef>|
        {
            &&& #[trigger] run_queue::search::<S>(steps, cpu)
            &&& steps[0] == pre
            &&& #[trigger] run_queue::found::<S>(steps, cpu, task, post)
            &&& next == match task {
                Some(t) => t,
                None => pre.idle[cpu as int]->0,
            }
        };
    let list = pre.run_queue.list;
    let k = steps.len() - 1;
    if k > at {
        // Nobody who may run is passed over.
        lemma_search_turns::<S>(steps, cpu, at + 1);
        assert(!pre.tasks[list[at].id as int].inner.cpu_set.holds(cpu as int));
    } else {
        lemma_search_turns::<S>(steps, cpu, k);
        let end = steps[k];
        assert(end == steps.last());
        assert(end.run_queue.list[0].id == list[k].id);
        if run_queue::seen_before(steps, list[k].id) {
            let i = choose|i: int|
                0 <= i < steps.len() - 1 && (#[trigger] steps[i]).run_queue[0].id == list[k].id;
            lemma_search_turns::<S>(steps, cpu, i);
            assert(steps[i].run_queue.list[0].id == list[i].id);
            assert(sched::distinct(pre.run_queue));
        }
        if k < at {
            assert(!pre.tasks[list[k].id as int].inner.cpu_set.holds(cpu as int));
        }
    }
}

/// Rescheduling from the shared run queue where tasks may run on some CPUs only, first come first served and
/// round robin, once the task that ran cannot run on: the first task in the queue that may run on the CPU
/// runs.
pub proof fn lemma_resched_finds(
    pre: SystemView,
    cpu: usize,
    preempt: bool,
    post: SystemView,
    work: Switched,
    at: int,
)
    requires
        pre.wf(),
        run_queue::can_resched(pre, cpu),
        pre.config.monolithic,
        pre.tasks[pre.current[cpu as int]->0 as int].state != TaskState::Runable,
        run_queue::rescheduled::<Fifo>(pre, cpu, preempt, post, work) || run_queue::rescheduled::<
            RoundRobin,
        >(pre, cpu, preempt, post, work),
        0 <= at < pre.run_queue.list.len(),
        pre.tasks[pre.run_queue.list[at].id as int].inner.cpu_set.holds(cpu as int),
        forall|i: int|
            0 <= i < at ==> !pre.tasks[#[trigger] pre.run_queue.list[i].id as int].inner.cpu_set.holds(
                cpu as int,
            ),
    ensures
        post.current[cpu as int] == Some(pre.run_queue.list[at].id),
{
    if run_queue::rescheduled::<Fifo>(pre, cpu, preempt, post, work) {
        lemma_resched_finds_first::<Fifo>(pre, cpu, preempt, post, work, at);
    } else {
        lemma_resched_finds_first::<RoundRobin>(pre, cpu, preempt, post, work, at);
    }
}

/// The first task in the queue that may run on the CPU runs, for a policy that passes tasks to the end.
proof fn lemma_resched_finds_first<S: BaseScheduler>(
    pre: SystemView,
    cpu: usize,
    preempt: bool,
    post: SystemView,
    work: Switched,
    at: int,
)
    requires
        passes_to_the_end::<S>(),
        pre.wf(),
        run_queue::can_resched(pre, cpu),
        pre.config.monolithic,
        pre.state(pre.curr(cpu)) != TaskState::Runable,
        run_queue::rescheduled::<S>(pre, cpu, preempt, post, work),
        0 <= at < pre.run_queue.list.len(),
        pre.tasks[pre.run_queue.list[at].id as int].inner.cpu_set.holds(cpu as int),
        forall|i: int|
            0 <= i < at ==> !pre.tasks[#[trigger] pre.run_queue.list[i].id as int].inner.cpu_set.holds(
                cpu as int,
            ),
    ensures
        post.current[cpu as int] == Some(pre.run_queue.list[at].id),
{
    let prev = pre.curr(cpu);
    let (mid, sel, next) = choose|mid: SystemView, sel: SystemView, next: AxTaskRef|
        {
            &&& #[trigger] run_queue::put_back::<S>(pre, cpu, preempt, mid)
            &&& #[trigger] run_queue::chosen::<S>(mid, cpu, next, sel)
            &&& post == run_queue::switched(sel, cpu, prev, next)
            &&& work == run_queue::switch_work(sel, prev, next)
        };
    assert(mid == pre);
    assert(pre.current[cpu as int] is Some);
    lemma_search_finds::<S>(pre, cpu, next, sel, at);
    switching::lemma_chosen_frame::<S>(pre, cpu, next, sel);
    switching::lemma_switched_leaves(sel, cpu, prev, next);
}

/// Where a task waits that is added to a ready queue. First come first served and round robin put it at the
/// end as it is. Fair scheduling starts it from the least run time that it kept for newcomers, behind all
/// that have run as long.
pub proof fn lemma_added_turns(e: Entry, before: sched::Ready, after: sched::Ready)
    ensures
        Fifo::adds(e, before, after) ==> after.list == before.list.push(e),
        RoundRobin::adds(e, before, after) ==> after.list == before.list.push(e),
        Fair::adds(e, before, after) ==> exists|at: int|
            {
                &&& 0 <= at < after.list.len()
                &&& after.list.remove(at) == before.list
                &&& (#[trigger] after.list[at]).id == e.id
                &&& after.list[at].nice == e.nice
                &&& after.list[at].key == if before.floor is Some {
                    before.floor->0
                } else {
                    0
                }
                &&& after.list[at].base == after.list[at].key
                &&& forall|i: int| 0 <= i < at ==> (#[trigger] after.list[i]).key <= after.list[at].key
                &&& forall|i: int|
                    at < i < after.list.len() ==> (#[trigger] after.list[i]).key > after.list[at].key
            },
{
    if Fair::adds(e, before, after) {
        let x = fair::started(before.floor, e);
        let at = choose|at: int|
            {
                &&& 0 <= at <= before.list.len()
                &&& after.list == #[trigger] before.list.insert(at, x)
                &&& forall|i: int| 0 <= i < at ==> (#[trigger] before.list[i]).key <= x.key
                &&& forall|i: int| at <= i < before.list.len() ==> (#[trigger] before.list[i]).key > x.key
            };
        assert(after.list[at] == x);
        assert(after.list.remove(at) =~= before.list);
        assert forall|i: int| at < i < after.list.len() implies (#[trigger] after.list[i]).key > x.key by {
            assert(after.list[i] == before.list[i - 1]);
        }
    }
}

/// What a new task starts with: under round robin a whole time slice, and under fair scheduling the nice
/// value 0 and no run time.
pub proof fn lemma_initial_turns(id: usize)
    ensures
        Fifo::initial(id).id == id,
        RoundRobin::initial(id).id == id,
        RoundRobin::initial(id).budget == 5,
        Fair::initial(id).id == id,
        Fair::initial(id).nice == 0,
        fair::run_time(Fair::initial(id)) == 0,
{
}

/// Those who wait in a queue come first in the order in which they wait: when all of them are woken, first
/// come first served, they stand at the end of the shared run queue in that order.
pub proof fn lemma_wake_all_turns(
    pre: KernelView,
    cpu: usize,
    q: Seq<AxTaskRef>,
    resched: bool,
    post: KernelView,
)
    requires
        pre.wf(),
        !pre.has_processor(cpu),
        pre.sys.all_valid(q),
        q.no_duplicates(),
        forall|i: int|
            0 <= i < q.len() ==> pre.sys.tasks[#[trigger] q[i] as int].state == TaskState::Blocked,
        forall|i: int| 0 <= i < q.len() ==> pre.sys.slots[#[trigger] q[i] as int] is Held,
        wait_queue::can_wake_all(pre, cpu, q, resched),
        wait_queue::all_woken::<Fifo>(pre, cpu, q, resched, post),
    ensures
        post.wf(),
        post.sys.run_queue.list.len() == pre.sys.run_queue.list.len() + q.len(),
        post.sys.run_queue.list.take(pre.sys.run_queue.list.len() as int) == pre.sys.run_queue.list,
        forall|i: int|
            0 <= i < q.len() ==> post.sys.run_queue.list[pre.sys.run_queue.list.len() + i].id
                == #[trigger] q[i],
        forall|t: int|
            #![trigger post.sys.slots[t]]
            0 <= t < pre.sys.slots.len() && !q.contains(t as usize) ==> post.sys.slots[t]
                == pre.sys.slots[t],
    decreases q.len(),
{
    let old_list = pre.sys.run_queue.list;
    if q.len() == 0 {
        assert(old_list.take(old_list.len() as int) =~= old_list);
    } else {
        let mid = choose|mid: KernelView|
            wait_queue::all_woken::<Fifo>(pre, cpu, q.drop_last(), resched, mid)
                && #[trigger] block::woken::<Fifo>(mid, cpu, q.last(), resched, post);
        let less = q.drop_last();
        let task = q.last();
        assert(task == q[q.len() - 1]);
        assert(pre.sys.valid(task));
        assert forall|i: int| 0 <= i < less.len() implies pre.sys.valid(#[trigger] less[i])
            && block::can_wake(pre, cpu, less[i], resched) && pre.sys.tasks[less[i] as int].state
            == TaskState::Blocked && pre.sys.slots[less[i] as int] is Held by {
            assert(less[i] == q[i]);
        }
        lemma_wake_all_turns(pre, cpu, less, resched, mid);
        assert(!less.contains(task)) by {
            if less.contains(task) {
                let i = choose|i: int| 0 <= i < less.len() && less[i] == task;
                assert(q[i] == q[q.len() - 1]);
            }
        }
        effects::lemma_wake_all::<Fifo>(pre, cpu, less, resched, mid, task);
        effects::lemma_all_woken_keeps::<Fifo>(pre, cpu, less, resched, mid);
        block::lemma_can_wake_kept(pre, mid, cpu, task, resched);
        if cpu < pre.processors.len() {
            assert(block::kept_processor(pre.processors[cpu as int], mid.processors[cpu as int]));
        }
        assert(!mid.has_processor(cpu));
        assert(mid.sys.slots[task as int] is Held);
        assert(mid.sys.tasks[task as int].state == TaskState::Blocked);
        effects::lemma_wake_queues::<Fifo>(mid, cpu, task, resched, post);
        effects::lemma_woken_wf::<Fifo>(mid, cpu, task, resched, post);
        let e = mid.sys.slots[task as int]->Held_0;
        assert(post.sys.run_queue.list == mid.sys.run_queue.list.push(e));
        assert(post.sys.run_queue.list.take(old_list.len() as int) =~= old_list) by {
            assert(mid.sys.run_queue.list.take(old_list.len() as int) == old_list);
            assert forall|i: int| 0 <= i < old_list.len() implies post.sys.run_queue.list[i]
                == old_list[i] by {
                assert(mid.sys.run_queue.list.take(old_list.len() as int)[i] == old_list[i]);
            }
        }
        assert forall|i: int| 0 <= i < q.len() implies post.sys.run_queue.list[old_list.len()
            + i].id == #[trigger] q[i] by {
            if i < less.len() {
                assert(less[i] == q[i]);
            }
        }
        assert forall|t: int|
            0 <= t < pre.sys.slots.len() && !q.contains(t as usize) implies (
        #[trigger] post.sys.slots[t]) == pre.sys.slots[t] by {
            assert(q.contains(task));
            if less.contains(t as usize) {
                let i = choose|i: int| 0 <= i < less.len() && less[i] == t as usize;
                assert(q[i] == t as usize);
            }
        }
    }
}

} // verus!
