//! The end of a task: who is told, and who drops it.
use crate::block;
use crate::kernel::{Kernel, KernelView};
use crate::sched::BaseScheduler;
use crate::system::{AxTaskRef, Switched};
use crate::task::TaskState;
use crate::wait_queue;
use crate::wait_queue::WaitQueue;
use std::collections::VecDeque;
use vstd::prelude::*;

verus! {

/// What follows the exit of a task.
#[derive(Clone, Copy, Debug, PartialEq, Eq, Structural)]
pub enum Exit {
    /// The kernel ends with its first task.
    Terminate,
    /// Another task runs.
    Switch(Switched),
}

/// Whether the task `t` is held by others than the queue of exited tasks; `holders` counts for each
/// task who holds it.
pub open spec fn still_held(holders: Seq<usize>) -> spec_fn(AxTaskRef) -> bool {
    |t: AxTaskRef| holders[t as int] != 1
}

/// Whether only the queue of exited tasks holds the task `t`.
pub open spec fn last_held(holders: Seq<usize>) -> spec_fn(AxTaskRef) -> bool {
    |t: AxTaskRef| holders[t as int] == 1
}

/// Takes the tasks that nobody else holds out of a queue of exited tasks; they are to be dropped. The
/// others (whose switch is not completed, or that a joiner holds) stay, in the same order.
pub fn gc_pass(exited: &mut VecDeque<AxTaskRef>, holders: &Vec<usize>) -> (dropped: Vec<AxTaskRef>)
    requires
        forall|i: int| 0 <= i < old(exited)@.len() ==> (#[trigger] old(exited)@[i]) < holders@.len(),
    ensures
        final(exited)@ == old(exited)@.filter(still_held(holders@)),
        dropped@ == old(exited)@.filter(last_held(holders@)),
{
    let ghost q = exited@;
    let ghost keep = still_held(holders@);
    let ghost drop = last_held(holders@);
    let mut dropped: Vec<AxTaskRef> = Vec::new();
    let n = exited.len();
    let mut i: usize = 0;
    proof {
        assert(q.take(0) =~= Seq::<AxTaskRef>::empty());
        reveal(Seq::filter);
        assert(q.skip(0) + q.take(0).filter(keep) =~= q);
    }
    while i < n
        invariant
            i <= n,
            n == q.len(),
            keep == still_held(holders@),
            drop == last_held(holders@),
            forall|i: int| 0 <= i < q.len() ==> (#[trigger] q[i]) < holders@.len(),
            exited@ == q.skip(i as int) + q.take(i as int).filter(keep),
            dropped@ == q.take(i as int).filter(drop),
        decreases n - i,
    {
        let ghost cur = exited@;
        assert(cur[0] == q[i as int]);
        let task = exited.pop_front().unwrap();
        if holders[task] == 1 {
            dropped.push(task);
        } else {
            exited.push_back(task);
        }
        proof {
            wait_queue::lemma_filter_step(q, i as int, keep);
            wait_queue::lemma_filter_step(q, i as int, drop);
            assert(exited@ =~= q.skip(i + 1) + q.take(i + 1).filter(keep));
        }
        i = i + 1;
    }
    assert(q.take(n as int) =~= q);
    assert(exited@ =~= q.filter(keep));
    dropped
}

/// Lets others wait for the exit of a task; who waited before is forgotten.
pub fn add_wait_for_exit_queue<S: BaseScheduler>(k: &mut Kernel<S>, task: AxTaskRef)
    requires
        old(k).wf(),
    ensures
        final(k).wf(),
        final(k)@ == (KernelView {
            joins: old(k)@.joins.insert(task, Seq::<AxTaskRef>::empty()),
            ..old(k)@
        }),
{
    let ghost pre = k@;
    k.wait_for_task_exits.insert(task, WaitQueue::new());
    assert(k@.joins =~= pre.joins.insert(task, Seq::<AxTaskRef>::empty()));
}

/// Who waits for the exit of a task, if the task can still be waited for.
pub fn get_wait_for_exit_queue<S: BaseScheduler>(k: &Kernel<S>, task: AxTaskRef) -> (r: Option<
    &WaitQueue,
>)
    ensures
        match r {
            Some(w) => k@.joins.contains_key(task) && w@ == k@.joins[task],
            None => !k@.joins.contains_key(task),
        },
{
    k.wait_for_task_exits.get(&task)
}

/// Those who wait for the exit of the task `task` are woken, and nobody can wait for it any more.
pub open spec fn exit_notified<S: BaseScheduler>(
    pre: KernelView,
    cpu: usize,
    task: AxTaskRef,
    post: KernelView,
) -> bool {
    if pre.joins.contains_key(task) {
        wait_queue::all_woken::<S>(
            KernelView { joins: pre.joins.remove(task), ..pre },
            cpu,
            pre.joins[task],
            false,
            post,
        )
    } else {
        post == pre
    }
}

/// What [`notify_wait_for_exit`] asks of the kernel.
pub open spec fn can_notify(v: KernelView, cpu: usize, task: AxTaskRef) -> bool {
    v.joins.contains_key(task) ==> wait_queue::can_wake_all(v, cpu, v.joins[task], false)
}

/// When a task exits, notifies all tasks that wait for it, and then removes its wait queue.
pub fn notify_wait_for_exit<S: BaseScheduler>(k: &mut Kernel<S>, cpu: usize, task: AxTaskRef)
    requires
        old(k).wf(),
        can_notify(old(k)@, cpu, task),
    ensures
        final(k).wf(),
        block::waking_keeps(
            KernelView { joins: old(k)@.joins.remove(task), ..old(k)@ },
            final(k)@,
        ),
        exit_notified::<S>(old(k)@, cpu, task, final(k)@),
{
    let ghost pre = k@;
    let ghost gone = KernelView { joins: pre.joins.remove(task), ..pre };
    if let Some(queue) = k.wait_for_task_exits.remove(&task) {
        assert(queue@ == pre.joins[task]);
        assert(k@.joins =~= pre.joins.remove(task));
        assert(pre.joins.contains_key(task));
        proof {
            assert forall|i: int| 0 <= i < queue@.len() implies block::can_wake(
                gone,
                cpu,
                #[trigger] queue@[i],
                false,
            ) by {
                assert(block::can_wake(pre, cpu, pre.joins[task][i], false));
                lemma_can_wake_gone(pre, cpu, pre.joins[task][i], task);
            }
        }
        queue.notify_all(k, cpu, false);
    } else {
        assert(k@.joins =~= pre.joins);
        assert(pre.joins.remove(task) =~= pre.joins);
        proof {
            block::lemma_waking_none(k@);
        }
    }
}

/// Whether a task can be woken does not depend on who waits for whom.
pub proof fn lemma_can_wake_gone(v: KernelView, cpu: usize, task: AxTaskRef, gone: AxTaskRef)
    requires
        block::can_wake(v, cpu, task, false),
    ensures
        block::can_wake(KernelView { joins: v.joins.remove(gone), ..v }, cpu, task, false),
{
    let w = KernelView { joins: v.joins.remove(gone), ..v };
    assert(w.has_processor(cpu) == v.has_processor(cpu));
}

/// The exited task `task` is handed to the task that drops exited tasks, which is woken.
pub open spec fn gc_cleared<S: BaseScheduler>(
    pre: KernelView,
    cpu: usize,
    task: AxTaskRef,
    post: KernelView,
) -> bool {
    let mid = KernelView { exited: pre.exited.push(task), ..pre };
    if pre.gc_waiters.len() > 0 {
        block::woken::<S>(mid, cpu, pre.gc_waiters[0], false, post)
    } else {
        post == mid
    }
}

/// The first of the tasks that wait can be woken, if there is one.
pub open spec fn can_wake_first(v: KernelView, cpu: usize, waiters: Seq<AxTaskRef>) -> bool {
    waiters.len() > 0 ==> block::can_wake(v, cpu, waiters[0], false)
}

/// Hands an exited task to the task that drops exited tasks.
pub fn gc_clear<S: BaseScheduler>(k: &mut Kernel<S>, cpu: usize, task: AxTaskRef)
    requires
        old(k).wf(),
        old(k)@.sys.valid(task),
        can_wake_first(old(k)@, cpu, old(k)@.gc_waiters),
    ensures
        final(k).wf(),
        block::waking_keeps(
            KernelView { exited: old(k)@.exited.push(task), ..old(k)@ },
            final(k)@,
        ),
        gc_cleared::<S>(old(k)@, cpu, task, final(k)@),
{
    let ghost pre = k@;
    k.exited_tasks.push_back(task);
    let ghost mid = k@;
    assert(mid.has_processor(cpu) == pre.has_processor(cpu));
    match k.wait_for_exit.front() {
        Some(first) => {
            assert(pre.sys.valid(pre.gc_waiters[0]));
            block::wake_task(k, cpu, first, false);
        },
        None => {
            proof {
                block::lemma_waking_none(mid);
            }
        },
    }
}

/// The first of the tasks that wait can be woken after others.
pub proof fn lemma_first_kept(
    pre: KernelView,
    post: KernelView,
    cpu: usize,
    waiters: Seq<AxTaskRef>,
)
    requires
        block::waking_keeps(pre, post),
        pre.sys.all_valid(waiters),
        can_wake_first(pre, cpu, waiters),
    ensures
        can_wake_first(post, cpu, waiters),
{
    if waiters.len() > 0 {
        assert(pre.sys.valid(waiters[0]));
        block::lemma_can_wake_kept(pre, post, cpu, waiters[0], false);
    }
}

/// When a task has exited, the first of the tasks that wait can be woken still.
pub proof fn lemma_can_wake_ended(
    v: KernelView,
    cpu: usize,
    task: AxTaskRef,
    waiters: Seq<AxTaskRef>,
)
    requires
        v.sys.valid(task),
        v.sys.all_valid(waiters),
        can_wake_first(v, cpu, waiters),
    ensures
        can_wake_first(
            v.with_sys(v.sys.with_state(task, TaskState::Exited)),
            cpu,
            waiters,
        ),
{
    let w = v.with_sys(v.sys.with_state(task, TaskState::Exited));
    assert(w.has_processor(cpu) == v.has_processor(cpu));
    if waiters.len() > 0 {
        assert(v.sys.valid(waiters[0]));
    }
}

/// When a task has exited, who could be woken can be woken still.
pub proof fn lemma_can_notify_ended(
    v: KernelView,
    cpu: usize,
    task: AxTaskRef,
    waiters: Seq<AxTaskRef>,
)
    requires
        v.wf(),
        v.sys.valid(task),
        v.sys.all_valid(waiters),
        can_notify(v, cpu, task),
        can_wake_first(v, cpu, waiters),
    ensures
        can_notify(
            v.with_sys(v.sys.with_state(task, TaskState::Exited)),
            cpu,
            task,
        ),
        can_wake_first(
            v.with_sys(v.sys.with_state(task, TaskState::Exited)),
            cpu,
            waiters,
        ),
{
    lemma_can_wake_ended(v, cpu, task, waiters);
    let w = v.with_sys(v.sys.with_state(task, TaskState::Exited));
    assert(w.has_processor(cpu) == v.has_processor(cpu));
    if v.joins.contains_key(task) {
        let q = v.joins[task];
        assert forall|i: int| 0 <= i < q.len() implies block::can_wake(
            w,
            cpu,
            #[trigger] q[i],
            false,
        ) by {
            assert(v.sys.valid(q[i]));
            assert(block::can_wake(v, cpu, q[i], false));
        }
    }
}

/// Every exited task is either dropped or kept, and only those are dropped that nobody else holds.
pub proof fn lemma_gc_pass(exited: Seq<AxTaskRef>, holders: Seq<usize>)
    ensures
        exited.filter(still_held(holders)).to_multiset().add(
            exited.filter(last_held(holders)).to_multiset(),
        ) == exited.to_multiset(),
        forall|i: int|
            0 <= i < exited.filter(last_held(holders)).len() ==> holders[(
            #[trigger] exited.filter(last_held(holders))[i]) as int] == 1,
        forall|i: int|
            0 <= i < exited.filter(still_held(holders)).len() ==> holders[(
            #[trigger] exited.filter(still_held(holders))[i]) as int] != 1,
    decreases exited.len(),
{
    broadcast use vstd::seq_lib::group_to_multiset_ensures;

    reveal(Seq::filter);
    let keep = exited.filter(still_held(holders));
    let drop = exited.filter(last_held(holders));
    if exited.len() == 0 {
        assert(keep.to_multiset().add(drop.to_multiset()) =~= exited.to_multiset());
    } else {
        let front = exited.drop_last();
        let last = exited.last();
        lemma_gc_pass(front, holders);
        assert(exited =~= front.push(last));
        if holders[last as int] == 1 {
            assert(drop =~= front.filter(last_held(holders)).push(last));
            assert(keep =~= front.filter(still_held(holders)));
        } else {
            assert(keep =~= front.filter(still_held(holders)).push(last));
            assert(drop =~= front.filter(last_held(holders)));
        }
        assert(keep.to_multiset().add(drop.to_multiset()) =~= exited.to_multiset());
    }
}

} // verus!
