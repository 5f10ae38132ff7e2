//! Queues of waiting tasks.
use crate::block;
use crate::config::{TimeValue, MAX_TIME};
use crate::kernel;
use crate::kernel::{Kernel, KernelView};
use crate::run_queue;
use crate::run_queue::{schedule_timeout_resume, Alarm};
use crate::sched::BaseScheduler;
use crate::system::{AxTaskRef, Switched, System, SystemView};
use std::collections::VecDeque;
use vstd::prelude::*;

verus! {

/// A queue to store sleeping tasks.
///
/// A task that waits enters the queue, blocks, and leaves the queue when it runs again: being notified
/// does not take it out. What a task does before it blocks and what it does when it runs again are
/// functions of their own, as other tasks run in between.
pub struct WaitQueue {
    pub queue: VecDeque<AxTaskRef>,
}

/// Whether a task is another one than `task`.
pub open spec fn other_than(task: AxTaskRef) -> spec_fn(AxTaskRef) -> bool {
    |t: AxTaskRef| t != task
}

/// The tasks of `q` but for `task`, in the same order.
pub open spec fn without(q: Seq<AxTaskRef>, task: AxTaskRef) -> Seq<AxTaskRef> {
    q.filter(other_than(task))
}

/// CPU `cpu` wakes the tasks of `q`, one after the other.
pub open spec fn all_woken<S: BaseScheduler>(
    pre: KernelView,
    cpu: usize,
    q: Seq<AxTaskRef>,
    resched: bool,
    post: KernelView,
) -> bool
    decreases q.len(),
{
    if q.len() == 0 {
        post == pre
    } else {
        exists|mid: KernelView|
            all_woken::<S>(pre, cpu, q.drop_last(), resched, mid) && #[trigger] block::woken::<S>(
                mid,
                cpu,
                q.last(),
                resched,
                post,
            )
    }
}

/// CPU `cpu` can wake each task of `q`.
pub open spec fn can_wake_all(
    v: KernelView,
    cpu: usize,
    q: Seq<AxTaskRef>,
    resched: bool,
) -> bool {
    forall|i: int| 0 <= i < q.len() ==> block::can_wake(v, cpu, #[trigger] q[i], resched)
}

/// How far a task has come that waits for a condition.
#[derive(Clone, Copy, Debug, PartialEq, Eq, Structural)]
pub enum Waiting {
    /// The wait is over, and the task has left the queue.
    Done,
    /// The condition is to be tested again when the task runs again; until then this is to be done.
    Again(Switched),
}

/// How far a task has come that waits for a condition or a deadline.
#[derive(Clone, Copy, Debug, PartialEq, Eq, Structural)]
pub enum TimedWaiting {
    /// The wait is over, and the task has left the queue; whether the deadline had passed.
    Done(bool),
    /// The task sleeps: the alarm is to be set, then the switch is to be carried out.
    Sleep(Alarm, Switched),
}

impl View for WaitQueue {
    type V = Seq<AxTaskRef>;

    open spec fn view(&self) -> Seq<AxTaskRef> {
        self.queue@
    }
}

/// The kernel after the running task of CPU `cpu` has entered a wait queue.
pub open spec fn waiting(pre: KernelView, cpu: usize) -> KernelView {
    pre.with_sys(run_queue::wakeups_forgotten(pre.sys, pre.sys.curr(cpu)))
}

/// There is a CPU `cpu`, it runs a task, and if the task has to wait it can block.
pub open spec fn can_wait(v: KernelView, cpu: usize, condition: bool) -> bool {
    &&& v.sys.running(cpu)
    &&& condition || block::can_block(waiting(v, cpu), cpu)
}

impl WaitQueue {
    /// Creates an empty wait queue.
    pub fn new() -> (r: Self)
        ensures
            r@ == Seq::<AxTaskRef>::empty(),
    {
        WaitQueue { queue: VecDeque::new() }
    }

    /// Creates an empty wait queue with space for at least `capacity` elements.
    pub fn with_capacity(capacity: usize) -> (r: Self)
        ensures
            r@ == Seq::<AxTaskRef>::empty(),
    {
        WaitQueue { queue: VecDeque::with_capacity(capacity) }
    }

    /// Puts the running task of CPU `cpu` into the queue. Wake-ups count from now on.
    pub(crate) fn enter<S: BaseScheduler>(&mut self, sys: &mut System<S>, cpu: usize) -> (task:
        AxTaskRef)
        requires
            old(sys).wf(),
            old(sys)@.running(cpu),
        ensures
            final(sys).wf(),
            old(sys)@.same_frame(final(sys)@),
            task == old(sys)@.curr(cpu),
            final(sys)@ == run_queue::wakeups_forgotten(old(sys)@, task),
            final(self)@ == old(self)@.push(task),
    {
        let curr = sys.curr(cpu);
        sys.reset_wakeup_cnt(curr);
        self.queue.push_back(curr);
        curr
    }

    /// The first task in the queue, if there is one.
    pub(crate) fn front(&self) -> (r: Option<AxTaskRef>)
        ensures
            r == if self@.len() > 0 {
                Some(self@[0])
            } else {
                None
            },
    {
        if self.queue.len() == 0 {
            None
        } else {
            Some(self.queue[0])
        }
    }

    /// Takes a task out of the queue.
    pub fn leave(&mut self, task: AxTaskRef)
        ensures
            final(self)@ == without(old(self)@, task),
    {
        let ghost q = self@;
        let ghost p = other_than(task);
        let n = self.queue.len();
        let mut i: usize = 0;
        assert(q.skip(0) + q.take(0).filter(p) =~= q) by {
            assert(q.take(0) =~= Seq::<AxTaskRef>::empty());
            reveal(Seq::filter);
        }
        while i < n
            invariant
                i <= n,
                n == q.len(),
                p == other_than(task),
                self@ == q.skip(i as int) + q.take(i as int).filter(p),
            decreases n - i,
        {
            let ghost cur = self@;
            assert(cur[0] == q[i as int]);
            let t = self.queue.pop_front().unwrap();
            if t != task {
                self.queue.push_back(t);
            }
            proof {
                lemma_filter_step(q, i as int, p);
                assert(self@ =~= q.skip(i + 1) + q.take(i + 1).filter(p));
            }
            i = i + 1;
        }
        assert(q.take(n as int) =~= q);
        assert(self@ =~= q.filter(p));
    }

    /// Blocks the running task of CPU `cpu` and puts it into the queue, until another task notifies
    /// it. When it runs again, [`WaitQueue::leave`] ends the wait.
    pub fn wait<S: BaseScheduler>(&mut self, k: &mut Kernel<S>, cpu: usize) -> (r: (
        AxTaskRef,
        Switched,
    ))
        requires
            old(k).wf(),
            can_wait(old(k)@, cpu, false),
        ensures
            final(k).wf(),
            r.0 == old(k)@.sys.curr(cpu),
            block::blocked::<S>(waiting(old(k)@, cpu), cpu, final(k)@, r.1),
            final(self)@ == old(self)@.push(r.0),
    {
        let task = self.enter(&mut k.system, cpu);
        proof {
            kernel::lemma_sys_changed(old(k)@, k@.sys);
        }
        (task, block::block_current(k, cpu))
    }

    /// Blocks the running task of CPU `cpu` and puts it into the queue, until the condition becomes
    /// true; `condition` is what it is now. A task that is notified tests the condition again, with
    /// [`WaitQueue::wait_until_again`].
    pub fn wait_until<S: BaseScheduler>(
        &mut self,
        k: &mut Kernel<S>,
        cpu: usize,
        condition: bool,
    ) -> (r: (AxTaskRef, Waiting))
        requires
            old(k).wf(),
            can_wait(old(k)@, cpu, condition),
        ensures
            final(k).wf(),
            r.0 == old(k)@.sys.curr(cpu),
            if condition {
                &&& r.1 == Waiting::Done
                &&& final(k)@ == waiting(old(k)@, cpu)
                &&& final(self)@ == without(old(self)@, r.0)
            } else {
                &&& r.1 is Again
                &&& block::blocked::<S>(waiting(old(k)@, cpu), cpu, final(k)@, r.1->Again_0)
                &&& final(self)@ == old(self)@.push(r.0)
            },
    {
        let task = self.enter(&mut k.system, cpu);
        proof {
            kernel::lemma_sys_changed(old(k)@, k@.sys);
            lemma_without_push(old(self)@, task);
        }
        (task, self.wait_until_again(k, cpu, task, condition))
    }

    /// Goes on with the wait of `task`, which runs again on CPU `cpu`; `condition` is what the condition
    /// is now.
    pub fn wait_until_again<S: BaseScheduler>(
        &mut self,
        k: &mut Kernel<S>,
        cpu: usize,
        task: AxTaskRef,
        condition: bool,
    ) -> (r: Waiting)
        requires
            old(k).wf(),
            condition || block::can_block(old(k)@, cpu),
        ensures
            final(k).wf(),
            if condition {
                &&& r == Waiting::Done
                &&& final(k)@ == old(k)@
                &&& final(self)@ == without(old(self)@, task)
            } else {
                &&& r is Again
                &&& block::blocked::<S>(old(k)@, cpu, final(k)@, r->Again_0)
                &&& final(self)@ == old(self)@
            },
    {
        if condition {
            self.leave(task);
            Waiting::Done
        } else {
            Waiting::Again(block::block_current(k, cpu))
        }
    }

    /// Blocks the running task of CPU `cpu` and puts it into the queue, until other tasks notify it or
    /// the duration `dur` has elapsed since `now`. When it runs again,
    /// [`WaitQueue::wait_timeout_resume`] ends the wait.
    pub fn wait_timeout<S: BaseScheduler>(
        &mut self,
        k: &mut Kernel<S>,
        cpu: usize,
        now: TimeValue,
        dur: TimeValue,
    ) -> (r: (Alarm, Switched))
        requires
            old(k).wf(),
            can_wait(old(k)@, cpu, false),
            now + dur <= MAX_TIME,
        ensures
            final(k).wf(),
            r.0.task == old(k)@.sys.curr(cpu),
            r.0.deadline == now + dur,
            block::blocked::<S>(waiting(old(k)@, cpu), cpu, final(k)@, r.1),
            final(self)@ == old(self)@.push(r.0.task),
    {
        let deadline = now + dur;
        let task = self.enter(&mut k.system, cpu);
        proof {
            kernel::lemma_sys_changed(old(k)@, k@.sys);
            lemma_forgotten_twice(old(k)@.sys, task);
        }
        block::schedule_timeout(k, cpu, deadline)
    }

    /// Ends the wait of a task that runs again at the time `now`: whether its deadline has passed. Its
    /// alarm is to be cancelled.
    pub fn wait_timeout_resume(&mut self, alarm: Alarm, now: TimeValue) -> (timeout: bool)
        ensures
            timeout == (now >= alarm.deadline),
            final(self)@ == without(old(self)@, alarm.task),
    {
        let timeout = schedule_timeout_resume(alarm, now);
        self.leave(alarm.task);
        timeout
    }

    /// Blocks the running task of CPU `cpu` and puts it into the queue, until the condition becomes
    /// true or the duration `dur` has elapsed since `now`; `condition` is what the condition is now. A
    /// task that runs again goes on with [`WaitQueue::wait_timeout_until_again`].
    pub fn wait_timeout_until<S: BaseScheduler>(
        &mut self,
        k: &mut Kernel<S>,
        cpu: usize,
        now: TimeValue,
        dur: TimeValue,
        condition: bool,
    ) -> (r: TimedWaiting)
        requires
            old(k).wf(),
            can_wait(old(k)@, cpu, condition),
            now + dur <= MAX_TIME,
        ensures
            final(k).wf(),
            if condition {
                &&& r == TimedWaiting::Done(false)
                &&& final(k)@ == waiting(old(k)@, cpu)
                &&& final(self)@ == without(old(self)@, old(k)@.sys.curr(cpu))
            } else {
                &&& r is Sleep
                &&& r->Sleep_0.task == old(k)@.sys.curr(cpu)
                &&& r->Sleep_0.deadline == now + dur
                &&& block::blocked::<S>(waiting(old(k)@, cpu), cpu, final(k)@, r->Sleep_1)
                &&& final(self)@ == old(self)@.push(old(k)@.sys.curr(cpu))
            },
    {
        let deadline = now + dur;
        let task = self.enter(&mut k.system, cpu);
        proof {
            kernel::lemma_sys_changed(old(k)@, k@.sys);
            lemma_without_push(old(self)@, task);
            lemma_forgotten_twice(old(k)@.sys, task);
        }
        if condition {
            self.leave(task);
            return TimedWaiting::Done(false);
        }
        let (alarm, work) = block::schedule_timeout(k, cpu, deadline);
        TimedWaiting::Sleep(alarm, work)
    }

    /// Goes on with the wait of a task that runs again on CPU `cpu` at the time `now`: its alarm is to
    /// be cancelled. If the deadline has passed the wait is over; otherwise `condition` is what the
    /// condition is now.
    pub fn wait_timeout_until_again<S: BaseScheduler>(
        &mut self,
        k: &mut Kernel<S>,
        cpu: usize,
        alarm: Alarm,
        now: TimeValue,
        condition: bool,
    ) -> (r: TimedWaiting)
        requires
            old(k).wf(),
            now < alarm.deadline && !condition ==> can_wait(old(k)@, cpu, false),
            now < alarm.deadline && !condition ==> old(k)@.sys.curr(cpu) == alarm.task,
        ensures
            final(k).wf(),
            if now >= alarm.deadline || condition {
                &&& r == TimedWaiting::Done(now >= alarm.deadline)
                &&& final(k)@ == old(k)@
                &&& final(self)@ == without(old(self)@, alarm.task)
            } else {
                &&& r is Sleep
                &&& r->Sleep_0 == alarm
                &&& block::blocked::<S>(waiting(old(k)@, cpu), cpu, final(k)@, r->Sleep_1)
                &&& final(self)@ == old(self)@
            },
    {
        let timeout = schedule_timeout_resume(alarm, now);
        if timeout || condition {
            self.leave(alarm.task);
            return TimedWaiting::Done(timeout);
        }
        let (alarm, work) = block::schedule_timeout(k, cpu, alarm.deadline);
        TimedWaiting::Sleep(alarm, work)
    }

    /// Wakes up the given task if it is in the queue; `true` if it is.
    ///
    /// If `resched`, the running task of CPU `cpu` will be preempted when the preemption is enabled.
    pub fn notify_task<S: BaseScheduler>(
        &self,
        k: &mut Kernel<S>,
        cpu: usize,
        resched: bool,
        task: AxTaskRef,
    ) -> (r: bool)
        requires
            old(k).wf(),
            self@.contains(task) ==> old(k)@.sys.valid(task) && block::can_wake(
                old(k)@,
                cpu,
                task,
                resched,
            ),
        ensures
            final(k).wf(),
            r == self@.contains(task),
            if r {
                block::woken::<S>(old(k)@, cpu, task, resched, final(k)@)
            } else {
                final(k)@ == old(k)@
            },
    {
        let mut i: usize = 0;
        while i < self.queue.len()
            invariant
                i <= self@.len(),
                k.wf(),
                k@ == old(k)@,
                self@.contains(task) ==> old(k)@.sys.valid(task) && block::can_wake(
                    old(k)@,
                    cpu,
                    task,
                    resched,
                ),
                forall|j: int| 0 <= j < i ==> self@[j] != task,
            decreases self@.len() - i,
        {
            if self.queue[i] == task {
                assert(self@[i as int] == task);
                block::wake_task(k, cpu, task, resched);
                return true;
            }
            i = i + 1;
        }
        false
    }

    /// Wakes up the first task in the queue; `true` if there is one.
    ///
    /// If `resched`, the running task of CPU `cpu` will be preempted when the preemption is enabled.
    pub fn notify_one<S: BaseScheduler>(&self, k: &mut Kernel<S>, cpu: usize, resched: bool) -> (r:
        bool)
        requires
            old(k).wf(),
            self@.len() > 0 ==> old(k)@.sys.valid(self@[0]) && block::can_wake(
                old(k)@,
                cpu,
                self@[0],
                resched,
            ),
        ensures
            final(k).wf(),
            r == (self@.len() > 0),
            if r {
                block::woken::<S>(old(k)@, cpu, self@[0], resched, final(k)@)
            } else {
                final(k)@ == old(k)@
            },
    {
        match self.front() {
            None => false,
            Some(task) => {
                block::wake_task(k, cpu, task, resched);
                true
            },
        }
    }

    /// Wakes all tasks in the queue.
    ///
    /// If `resched`, the running task of CPU `cpu` will be preempted when the preemption is enabled.
    pub fn notify_all<S: BaseScheduler>(&self, k: &mut Kernel<S>, cpu: usize, resched: bool)
        requires
            old(k).wf(),
            old(k)@.sys.all_valid(self@),
            can_wake_all(old(k)@, cpu, self@, resched),
        ensures
            final(k).wf(),
            block::waking_keeps(old(k)@, final(k)@),
            all_woken::<S>(old(k)@, cpu, self@, resched, final(k)@),
    {
        let mut i: usize = 0;
        proof {
            block::lemma_waking_none(k@);
        }
        while i < self.queue.len()
            invariant
                i <= self@.len(),
                k.wf(),
                block::waking_keeps(old(k)@, k@),
                old(k)@.sys.all_valid(self@),
                can_wake_all(old(k)@, cpu, self@, resched),
                all_woken::<S>(old(k)@, cpu, self@.take(i as int), resched, k@),
            decreases self@.len() - i,
        {
            let ghost mid = k@;
            proof {
                assert(old(k)@.sys.valid(self@[i as int]));
                block::lemma_can_wake_kept(old(k)@, mid, cpu, self@[i as int], resched);
            }
            block::wake_task(k, cpu, self.queue[i], resched);
            proof {
                let q = self@.take(i + 1);
                assert(q.drop_last() =~= self@.take(i as int));
                block::lemma_waking_keeps(old(k)@, mid, k@);
                lemma_one_more::<S>(old(k)@, cpu, q, resched, mid, k@);
            }
            i = i + 1;
        }
        assert(self@.take(self@.len() as int) =~= self@);
    }
}

/// One more element is looked at by a filter.
pub proof fn lemma_filter_step(q: Seq<AxTaskRef>, i: int, p: spec_fn(AxTaskRef) -> bool)
    requires
        0 <= i < q.len(),
    ensures
        q.take(i + 1).filter(p) == if p(q[i]) {
            q.take(i).filter(p).push(q[i])
        } else {
            q.take(i).filter(p)
        },
{
    reveal(Seq::filter);
    assert(q.take(i + 1).drop_last() =~= q.take(i));
}

/// The last task of `q` is woken after all the others.
proof fn lemma_one_more<S: BaseScheduler>(
    pre: KernelView,
    cpu: usize,
    q: Seq<AxTaskRef>,
    resched: bool,
    mid: KernelView,
    post: KernelView,
)
    requires
        q.len() > 0,
        all_woken::<S>(pre, cpu, q.drop_last(), resched, mid),
        block::woken::<S>(mid, cpu, q.last(), resched, post),
    ensures
        all_woken::<S>(pre, cpu, q, resched, post),
{
}

/// Entering a queue and leaving it again leaves the others.
pub proof fn lemma_without_push(q: Seq<AxTaskRef>, task: AxTaskRef)
    ensures
        without(q.push(task), task) == without(q, task),
{
    reveal(Seq::filter);
    assert(q.push(task).drop_last() =~= q);
}

/// Wake-ups that are forgotten stay forgotten.
pub proof fn lemma_forgotten_twice(v: SystemView, task: AxTaskRef)
    requires
        v.wf(),
        v.valid(task),
    ensures
        run_queue::wakeups_forgotten(run_queue::wakeups_forgotten(v, task), task)
            == run_queue::wakeups_forgotten(v, task),
{
    let w = run_queue::wakeups_forgotten(v, task);
    assert(run_queue::wakeups_forgotten(w, task).tasks =~= w.tasks);
}

/// A task that enters a queue and leaves it again leaves it as it was.
pub proof fn lemma_enter_leave(q: Seq<AxTaskRef>, task: AxTaskRef)
    requires
        !q.contains(task),
    ensures
        without(q.push(task), task) == q,
{
    lemma_without_push(q, task);
    lemma_without_none(q, task);
}

/// A queue without a task that is not in it is the queue.
proof fn lemma_without_none(q: Seq<AxTaskRef>, task: AxTaskRef)
    requires
        !q.contains(task),
    ensures
        without(q, task) == q,
    decreases q.len(),
{
    reveal(Seq::filter);
    if q.len() > 0 {
        assert forall|i: int| 0 <= i < q.drop_last().len() implies q.drop_last()[i] != task by {
            assert(q[i] != task);
        }
        lemma_without_none(q.drop_last(), task);
        assert(q.last() == q[q.len() - 1]);
        assert(q =~= q.drop_last().push(q.last()));
    }
}

/// A task that has left a queue is not in it, and the others are.
pub proof fn lemma_left(q: Seq<AxTaskRef>, task: AxTaskRef)
    ensures
        forall|t: AxTaskRef| #[trigger] without(q, task).contains(t) <==> (q.contains(t) && t != task),
    decreases q.len(),
{
    reveal(Seq::filter);
    if q.len() > 0 {
        let front = q.drop_last();
        lemma_left(front, task);
        let f = without(front, task);
        assert(q =~= front.push(q.last()));
        assert forall|t: AxTaskRef| #[trigger] without(q, task).contains(t) <==> (q.contains(t) && t
            != task) by {
            assert(q.contains(t) <==> (front.contains(t) || t == q.last())) by {
                if front.contains(t) {
                    let i = choose|i: int| 0 <= i < front.len() && front[i] == t;
                    assert(q[i] == t);
                }
                if t == q.last() {
                    assert(q[q.len() - 1] == t);
                }
            }
            assert(f.push(q.last()).contains(t) <==> (f.contains(t) || t == q.last())) by {
                if f.contains(t) {
                    let i = choose|i: int| 0 <= i < f.len() && f[i] == t;
                    assert(f.push(q.last())[i] == t);
                }
                if t == q.last() {
                    assert(f.push(q.last())[f.len() as int] == t);
                }
            }
        }
    }
}

} // verus!
