//! The shared run queue.
//!
//! All CPUs take their tasks from one queue. Under it a task is `Runable` while it waits, `Running`
//! while a CPU runs it, `Blocked` while it waits for something else and `Exited` in the end. Every
//! function here is one critical section of the queue.
//!
//! A task that is woken before it has blocked does not miss the wake-up: the wake-up is counted, and
//! a task with counted wake-ups does not block but uses them up.
use crate::block;
use crate::config::{Config, TimeValue};
use crate::exit;
use crate::exit::{exit_notified, gc_clear, gc_cleared, gc_pass, notify_wait_for_exit, Exit};
use crate::kernel::{lemma_places_kept, lemma_sys_changed, lemma_waiting_sound, waiting_sound};
use crate::kernel::{processor_wf, Kernel, KernelView};
use crate::processor;
use crate::sched;
use crate::sched::lemma_sound_at_zero;
use crate::sched::{BaseScheduler, Entry, Ready, RemovableScheduler};
use crate::system;
use crate::system::{lemma_held_sound, lemma_slot_sound};
use crate::system::{
    enqueued, lemma_filtered_valid, lemma_into_run_queue, may_enqueue, picked, queued_as, requeued,
    taken_out, AxTaskRef,
    Slot, Switched, System, SystemView,
};
use crate::task::{
    fits, is_boot_task, is_kernel_task, new_boot_task, new_kernel_task, Allocation, CurrentTask, ScheduleTask,
    TaskInner, TaskState,
};
use crate::wait_queue;
use crate::wait_queue::{other_than, without};
use std::collections::BTreeSet;
use vstd::prelude::*;

verus! {

/// The run queue that all CPUs share.
pub struct AxRunQueue<S: BaseScheduler> {
    pub scheduler: S,
}

impl<S: BaseScheduler> AxRunQueue<S> {
    /// A run queue with the task that drops exited tasks in it.
    pub fn new(gc_task: S::SchedItem) -> (r: Self)
        ensures
            S::adds(S::entry(gc_task), Ready::none(), r.scheduler.ready()),
    {
        let mut scheduler = S::new();
        scheduler.add_task(gc_task);
        AxRunQueue { scheduler }
    }
}

/// The running task goes back into the run queue if it can run on and is not an idle task.
pub open spec fn put_back<S: BaseScheduler>(
    pre: SystemView,
    cpu: usize,
    preempt: bool,
    post: SystemView,
) -> bool {
    let prev = pre.curr(cpu);
    if pre.state(prev) == TaskState::Runable && !pre.inner(prev).is_idle {
        requeued::<S>(pre, prev, preempt, post)
    } else {
        post == pre
    }
}

/// The first task of the run queue may not run on CPU `cpu` and goes back into the queue.
pub open spec fn passed_over<S: BaseScheduler>(
    pre: SystemView,
    cpu: usize,
    post: SystemView,
) -> bool {
    let task = pre.run_queue[0].id;
    &&& pre.run_queue.len() > 0
    &&& !pre.inner(task).cpu_set.holds(cpu as int)
    &&& requeued::<S>(picked(pre), task, false, post)
}

/// The states that a search for a task for CPU `cpu` goes through: each but the last passes over a
/// task, and no task is passed over twice.
pub open spec fn search<S: BaseScheduler>(steps: Seq<SystemView>, cpu: usize) -> bool {
    &&& steps.len() > 0
    &&& forall|i: int|
        0 <= i < steps.len() - 1 ==> #[trigger] passed_over::<S>(steps[i], cpu, steps[i + 1])
    &&& forall|i: int, j: int|
        0 <= i < j < steps.len() - 1 ==> (#[trigger] steps[i]).run_queue[0].id != (
        #[trigger] steps[j]).run_queue[0].id
}

/// The search came by the task before.
pub open spec fn seen_before(steps: Seq<SystemView>, task: AxTaskRef) -> bool {
    exists|i: int| 0 <= i < steps.len() - 1 && (#[trigger] steps[i]).run_queue[0].id == task
}

/// The search ended: the queue is empty, or its first task may run on the CPU and is taken out, or the
/// search came by that task before. Then none of them may run on the CPU, none is found, and the task
/// goes back into the queue.
pub open spec fn found<S: BaseScheduler>(
    steps: Seq<SystemView>,
    cpu: usize,
    task: Option<AxTaskRef>,
    post: SystemView,
) -> bool {
    let end = steps.last();
    if end.run_queue.len() == 0 {
        task is None && post == end
    } else {
        let first = end.run_queue[0].id;
        if seen_before(steps, first) {
            task is None && requeued::<S>(picked(end), first, false, post)
        } else {
            &&& end.inner(first).cpu_set.holds(cpu as int)
            &&& task == Some(first)
            &&& post == picked(end)
        }
    }
}

/// The next task for CPU `cpu` is taken out of the run queue: the first one; or, where tasks are bound
/// to CPUs, the first one that may run there; or else the idle task of the CPU.
pub open spec fn chosen<S: BaseScheduler>(
    pre: SystemView,
    cpu: usize,
    next: AxTaskRef,
    post: SystemView,
) -> bool {
    if pre.config.monolithic {
        exists|steps: Seq<SystemView>, task: Option<AxTaskRef>|
            {
                &&& #[trigger] search::<S>(steps, cpu)
                &&& steps[0] == pre
                &&& #[trigger] found::<S>(steps, cpu, task, post)
                &&& next == match task {
                    Some(t) => t,
                    None => pre.idle[cpu as int]->0,
                }
            }
    } else if pre.run_queue.len() == 0 {
        post == pre && next == pre.idle[cpu as int]->0
    } else {
        post == picked(pre) && next == pre.run_queue[0].id
    }
}

/// The task `next` is `Running` and no longer due for preemption.
pub open spec fn claimed(pre: SystemView, next: AxTaskRef) -> SystemView {
    let v = if pre.config.preempt {
        pre.with_pending(next, false)
    } else {
        pre
    };
    v.with_state(next, TaskState::Running)
}

/// CPU `cpu` goes over from the task `prev` to the task `next`.
pub open spec fn switched(
    pre: SystemView,
    cpu: usize,
    prev: AxTaskRef,
    next: AxTaskRef,
) -> SystemView {
    if prev == next {
        claimed(pre, next)
    } else {
        claimed(pre, next).with_current(cpu, next)
    }
}

/// What is left to do when CPU `cpu` goes over from the task `prev` to the task `next`.
pub open spec fn switch_work(pre: SystemView, prev: AxTaskRef, next: AxTaskRef) -> Switched {
    if prev == next {
        Switched::Stay
    } else {
        Switched::To(pre.switch_of(prev, next))
    }
}

/// CPU `cpu` gives up its task: the task goes back into the queue if it can run on, and the next one
/// takes its place.
pub open spec fn rescheduled<S: BaseScheduler>(
    pre: SystemView,
    cpu: usize,
    preempt: bool,
    post: SystemView,
    work: Switched,
) -> bool {
    exists|mid: SystemView, sel: SystemView, next: AxTaskRef|
        {
            &&& #[trigger] put_back::<S>(pre, cpu, preempt, mid)
            &&& #[trigger] chosen::<S>(mid, cpu, next, sel)
            &&& post == switched(sel, cpu, pre.curr(cpu), next)
            &&& work == switch_work(sel, pre.curr(cpu), next)
        }
}

/// What `resched` asks of the system.
pub open spec fn can_resched(v: SystemView, cpu: usize) -> bool {
    v.running(cpu) && v.idle[cpu as int] is Some
}

impl<S: BaseScheduler> System<S> {
    /// Takes the next task for CPU `cpu` out of the run queue, where tasks are bound to CPUs.
    fn search(&mut self, cpu: usize) -> (next: Option<AxTaskRef>)
        requires
            old(self).wf(),
        ensures
            final(self).wf(),
            old(self)@.same_frame(final(self)@),
            final(self)@.current == old(self)@.current,
            next is Some ==> final(self)@.valid(next->0),
            exists|steps: Seq<SystemView>|
                #[trigger] search::<S>(steps, cpu) && steps[0] == old(self)@ && found::<S>(
                    steps,
                    cpu,
                    next,
                    final(self)@,
                ),
    {
        let mut seen: BTreeSet<usize> = BTreeSet::new();
        let ghost mut steps: Seq<SystemView> = seq![self@];
        loop
            invariant
                self.wf(),
                old(self)@.same_frame(self@),
                self@.current == old(self)@.current,
                search::<S>(steps, cpu),
                steps[0] == old(self)@,
                steps.last() == self@,
                forall|t: usize| #[trigger] seen@.contains(t) <==> seen_before(steps, t),
                forall|t: usize| #[trigger] seen@.contains(t) ==> self@.valid(t),
                seen@.finite(),
            decreases self@.tasks.len() - seen@.len(),
        {
            let ghost before = self@;
            match self.pick() {
                None => {
                    assert(found::<S>(steps, cpu, None, self@));
                    return None;
                },
                Some(task) => {
                    if seen.contains(&task) {
                        self.requeue(task, false);
                        assert(found::<S>(steps, cpu, None, self@));
                        return None;
                    }
                    if self.tasks[task].inner.cpu_set.get(cpu) {
                        assert(found::<S>(steps, cpu, Some(task), self@));
                        return Some(task);
                    }
                    seen.insert(task);
                    self.requeue(task, false);
                    assert(passed_over::<S>(before, cpu, self@));
                    proof {
                        let longer = steps.push(self@);
                        assert forall|i: int|
                            0 <= i < longer.len() - 1 implies #[trigger] passed_over::<S>(
                            longer[i],
                            cpu,
                            longer[i + 1],
                        ) by {
                            if i < steps.len() - 1 {
                                assert(passed_over::<S>(steps[i], cpu, steps[i + 1]));
                            }
                        }
                        assert(longer[steps.len() - 1] == before);
                        assert forall|t: usize| #[trigger] seen@.contains(t) <==> seen_before(
                            longer,
                            t,
                        ) by {
                            if seen_before(steps, t) {
                                let i = choose|i: int|
                                    0 <= i < steps.len() - 1 && (#[trigger] steps[i]).run_queue[0].id == t;
                                assert(longer[i].run_queue[0].id == t);
                            }
                            if t == task {
                                assert(longer[steps.len() - 1].run_queue[0].id == t);
                            }
                            if seen_before(longer, t) {
                                let i = choose|i: int|
                                    0 <= i < longer.len() - 1 && (#[trigger] longer[i]).run_queue[0].id == t;
                                if i < steps.len() - 1 {
                                    assert(steps[i].run_queue[0].id == t);
                                }
                            }
                        }
                        lemma_bounded(seen@, self@.tasks.len());
                        steps = longer;
                    }
                },
            }
        }
    }
}

impl<S: BaseScheduler> System<S> {
    /// Goes over from the task `prev_task` to the task `next_task` on CPU `cpu`.
    fn switch_to(&mut self, cpu: usize, prev_task: AxTaskRef, next_task: AxTaskRef) -> (work:
        Switched)
        requires
            old(self).wf(),
            old(self)@.running(cpu),
            prev_task == old(self)@.curr(cpu),
            old(self)@.valid(next_task),
        ensures
            final(self).wf(),
            old(self)@.same_frame(final(self)@),
            final(self)@ == switched(old(self)@, cpu, prev_task, next_task),
            work == switch_work(old(self)@, prev_task, next_task),
    {
        if self.config.preempt {
            self.set_preempt_pending(next_task, false);
        }
        self.set_state(next_task, TaskState::Running);
        if prev_task == next_task {
            return Switched::Stay;
        }
        let work = self.switch_of(prev_task, next_task);
        CurrentTask::set_current(CurrentTask(prev_task), self, cpu, next_task);
        Switched::To(work)
    }

    /// Common reschedule subroutine. If `preempt`, the running task keeps its time slice, otherwise it
    /// starts a new one.
    pub(crate) fn resched(&mut self, cpu: usize, preempt: bool) -> (work: Switched)
        requires
            old(self).wf(),
            can_resched(old(self)@, cpu),
        ensures
            final(self).wf(),
            old(self)@.same_frame(final(self)@),
            rescheduled::<S>(old(self)@, cpu, preempt, final(self)@, work),
    {
        let prev = self.curr(cpu);
        if self.tasks[prev].is_runable() && !self.tasks[prev].inner.is_idle {
            self.requeue(prev, preempt);
        }
        let ghost mid = self@;
        assert(put_back::<S>(old(self)@, cpu, preempt, mid));
        let picked = if self.config.monolithic {
            self.search(cpu)
        } else {
            self.pick()
        };
        let next = match picked {
            Some(task) => task,
            None => self.idle_tasks[cpu].unwrap(),
        };
        assert(chosen::<S>(mid, cpu, next, self@));
        self.switch_to(cpu, prev, next)
    }
}

/// Adds a task that can run to the run queue.
pub fn add_task<S: BaseScheduler>(sys: &mut System<S>, task: AxTaskRef)
    requires
        old(sys).wf(),
        old(sys)@.valid(task),
        old(sys)@.state(task) == TaskState::Runable,
    ensures
        final(sys).wf(),
        old(sys)@.same_frame(final(sys)@),
        enqueued::<S>(old(sys)@, task, final(sys)@),
{
    sys.enqueue(task);
}

/// The running task of CPU `cpu` gives up the CPU and stays ready to run.
pub fn yield_current<S: BaseScheduler>(sys: &mut System<S>, cpu: usize) -> (work: Switched)
    requires
        old(sys).wf(),
        can_resched(old(sys)@, cpu),
        old(sys)@.state(old(sys)@.curr(cpu)) == TaskState::Running,
    ensures
        final(sys).wf(),
        old(sys)@.same_frame(final(sys)@),
        rescheduled::<S>(
            old(sys)@.with_state(old(sys)@.curr(cpu), TaskState::Runable),
            cpu,
            false,
            final(sys)@,
            work,
        ),
{
    let curr = sys.curr(cpu);
    sys.set_state(curr, TaskState::Runable);
    sys.resched(cpu, false)
}

/// What `block_current` asks of the system: a task that is no idle task runs on CPU `cpu`, and if it
/// has to block, preemption is disabled just once, by the run queue itself.
pub open spec fn can_block(v: SystemView, cpu: usize) -> bool {
    let curr = v.inner(v.curr(cpu));
    &&& can_resched(v, cpu)
    &&& v.state(v.curr(cpu)) == TaskState::Running
    &&& !curr.is_idle
    &&& curr.wakeup_cnt == 0 && v.config.preempt ==> curr.preempt_disable_count == 1
}

/// The running task of CPU `cpu` blocks, unless it was woken in the meantime: then it goes on, and its
/// wake-ups are used up.
pub open spec fn blocked<S: BaseScheduler>(
    pre: SystemView,
    cpu: usize,
    post: SystemView,
    work: Switched,
) -> bool {
    let curr = pre.curr(cpu);
    if pre.inner(curr).wakeup_cnt > 0 {
        post == wakeups_forgotten(pre, curr) && work == Switched::Stay
    } else {
        rescheduled::<S>(pre.with_state(curr, TaskState::Blocked), cpu, false, post, work)
    }
}

/// Blocks the running task of CPU `cpu` and goes over to the next one. A task that was woken since its
/// wake-ups were last forgotten does not block; they are forgotten instead.
pub fn block_current<S: BaseScheduler>(sys: &mut System<S>, cpu: usize) -> (work: Switched)
    requires
        old(sys).wf(),
        can_block(old(sys)@, cpu),
    ensures
        final(sys).wf(),
        old(sys)@.same_frame(final(sys)@),
        blocked::<S>(old(sys)@, cpu, final(sys)@, work),
{
    let curr = sys.curr(cpu);
    if sys.tasks[curr].inner.wakeup_cnt > 0 {
        sys.reset_wakeup_cnt(curr);
        return Switched::Stay;
    }
    sys.set_state(curr, TaskState::Blocked);
    sys.resched(cpu, false)
}

/// One more wake-up is counted for the task `task`.
pub open spec fn wakeup_counted(pre: SystemView, task: AxTaskRef) -> SystemView {
    let cnt = pre.inner(task).wakeup_cnt;
    pre.with_inner(task, TaskInner { wakeup_cnt: cnt.wrapping_add(1), ..pre.inner(task) })
}

/// CPU `cpu` wakes the task `task`: a blocked task can run again and goes into the run queue, and
/// preemption of the running task becomes pending if `resched` asks for it; for a running task the
/// wake-up is counted; any other task is left alone.
pub open spec fn woken<S: BaseScheduler>(
    pre: SystemView,
    cpu: usize,
    task: AxTaskRef,
    resched: bool,
    post: SystemView,
) -> bool {
    match pre.state(task) {
        TaskState::Blocked => {
            let ready = pre.with_state(task, TaskState::Runable);
            let mid = queued_as(ready, task, post.run_queue);
            &&& may_enqueue::<S>(ready, task, post.run_queue)
            &&& post == if resched && pre.config.preempt {
                mid.with_pending(pre.curr(cpu), true)
            } else {
                mid
            }
        },
        TaskState::Running => post == wakeup_counted(pre, task),
        _ => post == pre,
    }
}

/// What `wake_task` asks of the system.
pub open spec fn can_wake(v: SystemView, cpu: usize, resched: bool) -> bool {
    resched && v.config.preempt ==> v.running(cpu)
}

/// Wakes a task, on CPU `cpu`. If `resched`, the running task will be preempted when the preemption is
/// enabled.
pub fn wake_task<S: BaseScheduler>(
    sys: &mut System<S>,
    cpu: usize,
    task: AxTaskRef,
    resched: bool,
)
    requires
        old(sys).wf(),
        old(sys)@.valid(task),
        old(sys)@.state(task) == TaskState::Blocked ==> can_wake(old(sys)@, cpu, resched),
    ensures
        final(sys).wf(),
        old(sys)@.same_frame(final(sys)@),
        final(sys)@.current == old(sys)@.current,
        woken::<S>(old(sys)@, cpu, task, resched, final(sys)@),
{
    let state = sys.tasks[task].state();
    if state == TaskState::Blocked {
        sys.set_state(task, TaskState::Runable);
        sys.enqueue(task);
        if resched && sys.config.preempt {
            let curr = sys.curr(cpu);
            sys.set_preempt_pending(curr, true);
        }
    } else if state == TaskState::Running {
        let cnt = sys.tasks[task].inner.wakeup_cnt;
        sys.tasks[task].inner.wakeup_cnt = cnt.wrapping_add(1);
    }
}

/// What waking others leaves of a task: all but its state, if it was blocked or about to block, its
/// count of wake-ups and whether its preemption is pending.
pub open spec fn kept_by_waking(pre: ScheduleTask, post: ScheduleTask) -> bool {
    &&& post == (ScheduleTask {
        state: post.state,
        inner: TaskInner {
            wakeup_cnt: post.inner.wakeup_cnt,
            preempt_pending: post.inner.preempt_pending,
            ..pre.inner
        },
        ..pre
    })
    &&& post.state == pre.state || (post.state == TaskState::Runable && (pre.state
        == TaskState::Blocked || pre.state == TaskState::Blocking))
}

/// What waking tasks leaves of a system.
pub open spec fn waking_keeps(pre: SystemView, post: SystemView) -> bool {
    &&& post.config == pre.config
    &&& post.current == pre.current
    &&& post.idle == pre.idle
    &&& post.tasks.len() == pre.tasks.len()
    &&& forall|t: int|
        #![trigger pre.tasks[t]]
        #![trigger post.tasks[t]]
        0 <= t < pre.tasks.len() ==> kept_by_waking(pre.tasks[t], post.tasks[t])
}

/// Waking a task moves no task but from `Blocked` to `Runable`. In particular a task that has exited
/// stays so.
pub proof fn lemma_woken<S: BaseScheduler>(
    pre: SystemView,
    cpu: usize,
    task: AxTaskRef,
    resched: bool,
    post: SystemView,
)
    requires
        pre.valid(task),
        pre.state(task) == TaskState::Blocked && resched && pre.config.preempt ==> pre.running(cpu)
            && pre.valid(pre.curr(cpu)),
        woken::<S>(pre, cpu, task, resched, post),
    ensures
        waking_keeps(pre, post),
{
    assert forall|t: int|
        #![trigger pre.tasks[t]]
        #![trigger post.tasks[t]]
        0 <= t < pre.tasks.len() implies kept_by_waking(pre.tasks[t], post.tasks[t]) by {
        if pre.state(task) == TaskState::Blocked {
            let ready = pre.with_state(task, TaskState::Runable);
            let mid = queued_as(ready, task, post.run_queue);
            assert(mid.tasks == ready.tasks);
            assert(kept_by_waking(pre.tasks[t], mid.tasks[t]));
            assert(kept_by_waking(mid.tasks[t], post.tasks[t]));
        }
    }
}

/// Making the preemption of a task pending is nothing more than waking may do.
pub proof fn lemma_pending_keeps(v: SystemView, task: AxTaskRef)
    requires
        v.valid(task),
    ensures
        waking_keeps(v, v.with_pending(task, true)),
{
}

/// What is kept by waking is kept by waking more.
pub proof fn lemma_waking_keeps(a: SystemView, b: SystemView, c: SystemView)
    requires
        waking_keeps(a, b),
        waking_keeps(b, c),
    ensures
        waking_keeps(a, c),
{
    assert forall|t: int|
        #![trigger a.tasks[t]]
        #![trigger c.tasks[t]]
        0 <= t < a.tasks.len() implies kept_by_waking(a.tasks[t], c.tasks[t]) by {
        assert(kept_by_waking(a.tasks[t], b.tasks[t]));
        assert(kept_by_waking(b.tasks[t], c.tasks[t]));
    }
}

/// The wake-ups of the task `task` are forgotten.
pub open spec fn wakeups_forgotten(pre: SystemView, task: AxTaskRef) -> SystemView {
    pre.with_inner(task, TaskInner { wakeup_cnt: 0, ..pre.inner(task) })
}

impl<S: BaseScheduler> System<S> {
    /// Forgets the wake-ups of a task.
    pub(crate) fn reset_wakeup_cnt(&mut self, task: AxTaskRef)
        requires
            old(self).wf(),
            old(self)@.valid(task),
        ensures
            final(self).wf(),
            old(self)@.same_frame(final(self)@),
            final(self)@ == wakeups_forgotten(old(self)@, task),
    {
        self.tasks[task].inner.wakeup_cnt = 0;
    }
}

/// An alarm that wakes a task.
#[derive(Clone, Copy, Debug, PartialEq, Eq, Structural)]
pub struct Alarm {
    pub deadline: TimeValue,
    pub task: AxTaskRef,
}

/// Lets the running task of CPU `cpu` sleep until it is woken. The alarm that is handed out is to be
/// set before the switch is carried out; [`schedule_timeout_resume`] follows when the task runs again.
pub fn schedule_timeout<S: BaseScheduler>(
    sys: &mut System<S>,
    cpu: usize,
    deadline: TimeValue,
) -> (r: (Alarm, Switched))
    requires
        old(sys).wf(),
        can_block(wakeups_forgotten(old(sys)@, old(sys)@.curr(cpu)), cpu),
    ensures
        final(sys).wf(),
        old(sys)@.same_frame(final(sys)@),
        r.0 == (Alarm { deadline, task: old(sys)@.curr(cpu) }),
        blocked::<S>(
            wakeups_forgotten(old(sys)@, old(sys)@.curr(cpu)),
            cpu,
            final(sys)@,
            r.1,
        ),
{
    let curr = sys.curr(cpu);
    sys.reset_wakeup_cnt(curr);
    let work = block_current(sys, cpu);
    (Alarm { deadline, task: curr }, work)
}

/// Ends the sleep of a task that runs again at the time `now`: whether its deadline has passed. It may
/// have been woken earlier by others, so its alarm is to be cancelled.
pub fn schedule_timeout_resume(alarm: Alarm, now: TimeValue) -> (timeout: bool)
    ensures
        timeout == (now >= alarm.deadline),
{
    now >= alarm.deadline
}

/// Preempts the running task of CPU `cpu`, or lets the preemption wait until it is enabled.
pub fn preempt_resched<S: BaseScheduler>(sys: &mut System<S>, cpu: usize) -> (work: Switched)
    requires
        old(sys).wf(),
        can_resched(old(sys)@, cpu),
        old(sys)@.state(old(sys)@.curr(cpu)) == TaskState::Running,
    ensures
        final(sys).wf(),
        old(sys)@.same_frame(final(sys)@),
        ({
            let curr = old(sys)@.curr(cpu);
            if old(sys)@.inner(curr).preempt_disable_count == 1 {
                rescheduled::<S>(
                    old(sys)@.with_state(curr, TaskState::Runable),
                    cpu,
                    true,
                    final(sys)@,
                    work,
                )
            } else {
                final(sys)@ == old(sys)@.with_pending(curr, true) && work == Switched::Stay
            }
        }),
{
    let curr = sys.curr(cpu);
    if sys.tasks[curr].inner.preempt_disable_count == 1 {
        sys.set_state(curr, TaskState::Runable);
        sys.resched(cpu, true)
    } else {
        sys.set_preempt_pending(curr, true);
        Switched::Stay
    }
}

/// A tick on the running task of CPU `cpu`, with the tasks `ready` waiting: an idle task is not
/// charged. If another task should run, preemption becomes pending.
pub open spec fn ticked<S: BaseScheduler>(
    pre: SystemView,
    cpu: usize,
    ready: Ready,
    post: SystemView,
) -> bool {
    let curr = pre.curr(cpu);
    if pre.inner(curr).is_idle {
        post == pre
    } else {
        exists|e: Entry, due: bool|
            {
                &&& #[trigger] S::ticks(pre.slots[curr as int]->Held_0, ready, e, due)
                &&& post == if due && pre.config.preempt {
                    pre.with_slot(curr, Slot::Held(e)).with_pending(curr, true)
                } else {
                    pre.with_slot(curr, Slot::Held(e))
                }
            }
    }
}

/// The running task of CPU `cpu` has its scheduling item: no ready queue has it.
pub open spec fn holds_item(v: SystemView, cpu: usize) -> bool {
    v.running(cpu) && v.slots[v.curr(cpu) as int] is Held
}

/// The running task of CPU `cpu` can be charged: it is an idle task, which is not, or has its scheduling
/// item, and its run time can still be computed after the tick.
pub open spec fn can_tick<S: BaseScheduler>(v: SystemView, cpu: usize) -> bool {
    v.running(cpu) && (v.inner(v.curr(cpu)).is_idle || (v.slots[v.curr(cpu) as int] is Held
        && S::can_tick(v.run_queue, v.slots[v.curr(cpu) as int]->Held_0)))
}

/// Accounts a timer tick to the running task of CPU `cpu`.
pub fn scheduler_timer_tick<S: BaseScheduler>(sys: &mut System<S>, cpu: usize)
    requires
        old(sys).wf(),
        can_tick::<S>(old(sys)@, cpu),
    ensures
        final(sys).wf(),
        old(sys)@.same_frame(final(sys)@),
        ticked::<S>(old(sys)@, cpu, old(sys)@.run_queue, final(sys)@),
{
    let curr = sys.curr(cpu);
    if sys.tasks[curr].inner.is_idle {
        return ;
    }
    let ghost pre = sys@;
    proof {
        lemma_held_sound(pre.run_queue, pre.slots, curr);
        S::ticked_sound(pre.run_queue, pre.slots[curr as int]->Held_0);
    }
    let item = sys.take_item(curr);
    let (item, due) = sys.run_queue.scheduler.task_tick(item);
    proof {
        S::ticks_keeps(pre.slots[curr as int]->Held_0, pre.run_queue, S::entry(item), due);
        lemma_slot_sound(pre.run_queue, pre.slots, curr, Slot::Held(S::entry(item)));
    }
    sys.put_item(curr, item);
    assert(sys@.slots =~= pre.slots.update(curr as int, Slot::Held(S::entry(item))));
    if due && sys.config.preempt {
        sys.set_preempt_pending(curr, true);
    }
}

/// The running task of CPU `cpu` has the priority `prio`, if the policy takes it.
pub open spec fn reprioritised<S: BaseScheduler>(
    pre: SystemView,
    cpu: usize,
    prio: isize,
) -> SystemView {
    let curr = pre.curr(cpu);
    if S::accepts(prio) {
        pre.with_slot(
            curr,
            Slot::Held(S::reweighed(pre.slots[curr as int]->Held_0, prio)),
        )
    } else {
        pre
    }
}

/// Sets the priority of the running task of CPU `cpu`; `true` if the policy takes it.
pub fn set_current_priority<S: BaseScheduler>(sys: &mut System<S>, cpu: usize, prio: isize) -> (r:
    bool)
    requires
        old(sys).wf(),
        holds_item(old(sys)@, cpu),
    ensures
        final(sys).wf(),
        old(sys)@.same_frame(final(sys)@),
        r == S::accepts(prio),
        final(sys)@ == reprioritised::<S>(old(sys)@, cpu, prio),
{
    let curr = sys.curr(cpu);
    let ghost pre = sys@;
    proof {
        lemma_held_sound(pre.run_queue, pre.slots, curr);
    }
    let item = sys.take_item(curr);
    let (item, r) = sys.run_queue.scheduler.set_priority(item, prio);
    proof {
        S::reweighed_id(pre.slots[curr as int]->Held_0, prio);
        lemma_slot_sound(pre.run_queue, pre.slots, curr, Slot::Held(S::entry(item)));
    }
    sys.put_item(curr, item);
    assert(sys@.slots =~= pre.slots.update(curr as int, Slot::Held(S::entry(item))));
    assert(!r ==> sys@.slots =~= pre.slots);
    r
}

/// The exit code of the task `task` is `code`.
pub open spec fn with_exit_code(pre: SystemView, task: AxTaskRef, code: i32) -> SystemView {
    pre.with_inner(task, TaskInner { exit_code: code, ..pre.inner(task) })
}

impl<S: BaseScheduler> System<S> {
    /// Stores the exit code of a task.
    pub(crate) fn set_exit_code(&mut self, task: AxTaskRef, code: i32)
        requires
            old(self).wf(),
            old(self)@.valid(task),
        ensures
            final(self).wf(),
            old(self)@.same_frame(final(self)@),
            final(self)@ == with_exit_code(old(self)@, task, code),
    {
        self.tasks[task].inner.exit_code = code;
    }
}

/// The running task of CPU `cpu` ends: it is `Exited` before those who wait for it are woken, then it
/// is handed over to be dropped. The kernel ends with its first task; the exit code of any other is
/// stored, and the next task runs.
pub open spec fn exited<S: BaseScheduler>(
    pre: KernelView,
    cpu: usize,
    code: i32,
    post: KernelView,
    r: Exit,
) -> bool {
    let curr = pre.sys.curr(cpu);
    exists|a: KernelView, b: KernelView|
        {
            &&& #[trigger] exit_notified::<S>(
                pre.with_sys(pre.sys.with_state(curr, TaskState::Exited)),
                cpu,
                curr,
                a,
            )
            &&& #[trigger] gc_cleared::<S>(a, cpu, curr, b)
            &&& if b.sys.inner(curr).is_init {
                post == (KernelView { exited: Seq::empty(), ..b }) && r == Exit::Terminate
            } else {
                &&& r is Switch
                &&& post == b.with_sys(post.sys)
                &&& rescheduled::<S>(
                    with_exit_code(b.sys, curr, code),
                    cpu,
                    false,
                    post.sys,
                    r->Switch_0,
                )
            }
        }
}

/// Ends the running task of CPU `cpu`.
pub fn exit_current<S: BaseScheduler>(k: &mut Kernel<S>, cpu: usize, exit_code: i32) -> (r: Exit)
    requires
        old(k).wf(),
        can_resched(old(k)@.sys, cpu),
        old(k)@.sys.state(old(k)@.sys.curr(cpu)) == TaskState::Running,
        !old(k)@.sys.inner(old(k)@.sys.curr(cpu)).is_idle,
        exit::can_notify(old(k)@, cpu, old(k)@.sys.curr(cpu)),
        exit::can_wake_first(old(k)@, cpu, old(k)@.gc_waiters),
    ensures
        final(k).wf(),
        exited::<S>(old(k)@, cpu, exit_code, final(k)@, r),
{
    let ghost pre = k@;
    let curr = k.system.curr(cpu);
    k.system.set_state(curr, TaskState::Exited);
    let ghost ended = k@;
    proof {
        lemma_sys_changed(pre, ended.sys);
        exit::lemma_can_notify_ended(pre, cpu, curr, pre.gc_waiters);
    }
    // Others may look at the state as soon as they are woken.
    notify_wait_for_exit(k, cpu, curr);
    let ghost a = k@;
    proof {
        let gone = KernelView { joins: ended.joins.remove(curr), ..ended };
        assert(gone.has_processor(cpu) == ended.has_processor(cpu));
        exit::lemma_first_kept(gone, a, cpu, pre.gc_waiters);
    }
    gc_clear(k, cpu, curr);
    let ghost b = k@;
    if k.system.tasks[curr].inner.is_init {
        k.exited_tasks.clear();
        return Exit::Terminate;
    }
    k.system.set_exit_code(curr, exit_code);
    assert(k@.sys.running(cpu));
    let work = k.system.resched(cpu, false);
    proof {
        lemma_sys_changed(b, k@.sys);
    }
    Exit::Switch(work)
}

/// The task `task` ends without having run to its end: if it can run, it is `Exited`, handed over to be
/// dropped and taken out of the run queue; otherwise nothing happens.
pub open spec fn task_removed<S: RemovableScheduler>(
    pre: KernelView,
    cpu: usize,
    task: AxTaskRef,
    post: KernelView,
) -> bool {
    if pre.sys.state(task) == TaskState::Runable {
        exists|a: KernelView|
            {
                &&& #[trigger] gc_cleared::<S>(
                    pre.with_sys(pre.sys.with_state(task, TaskState::Exited)),
                    cpu,
                    task,
                    a,
                )
                &&& post == a.with_sys(post.sys)
                &&& taken_out::<S>(a.sys, task, post.sys)
            }
    } else {
        post == pre
    }
}

/// The item `e` is in a ready queue, or with its task.
pub open spec fn present(v: KernelView, e: Entry) -> bool {
    ||| system::present(v.sys, e)
    ||| exists|c: int|
        0 <= c < v.processors.len() && (#[trigger] v.processors[c]) is Some
            && v.processors[c]->0.ready.list.contains(e)
}

/// A task can be taken out of the run queue without harm to any item.
pub open spec fn can_remove<S: RemovableScheduler>(v: KernelView) -> bool {
    forall|e: Entry| #[trigger] present(v, e) ==> S::can_remove(v.sys.run_queue, e)
}

/// Every item is sound.
proof fn lemma_present_sound(v: KernelView, e: Entry)
    requires
        v.wf(),
        present(v, e),
    ensures
        sched::sound(v.sys.run_queue, e),
{
    let q = v.sys.run_queue;
    lemma_held_sound(q, v.sys.slots, 0);
    if q.list.contains(e) {
        let i = choose|i: int| 0 <= i < q.list.len() && q.list[i] == e;
        assert(sched::sound(q, q.list[i]));
    } else if v.sys.slots.contains(Slot::Held(e)) {
        let t = choose|t: int| 0 <= t < v.sys.slots.len() && v.sys.slots[t] == Slot::Held(e);
        lemma_held_sound(q, v.sys.slots, t as usize);
    } else {
        let c = choose|c: int|
            0 <= c < v.processors.len() && (#[trigger] v.processors[c]) is Some
                && v.processors[c]->0.ready.list.contains(e);
        let p = v.processors[c]->0;
        lemma_waiting_sound(q, p.ready);
        let i = choose|i: int| 0 <= i < p.ready.list.len() && p.ready.list[i] == e;
        assert(sched::sound(q, p.ready.list[i]));
    }
}

/// A task that is added to the run queue does no harm.
proof fn lemma_enqueued_removable<S: RemovableScheduler>(
    pre: KernelView,
    task: AxTaskRef,
    post: KernelView,
)
    requires
        pre.wf(),
        can_remove::<S>(pre),
        pre.sys.valid(task),
        enqueued::<S>(pre.sys, task, post.sys),
        post == pre.with_sys(post.sys),
    ensures
        can_remove::<S>(post),
{
    if pre.sys.slots[task as int] is Held {
        let q = pre.sys.run_queue;
        let after = post.sys.run_queue;
        let e0 = pre.sys.slots[task as int]->Held_0;
        lemma_held_sound(q, pre.sys.slots, task);
        S::adds_inserts(e0, q, after);
        let x = choose|x: Entry|
            x.id == e0.id && sched::akin(e0, x) && sched::fits(x) && #[trigger] sched::inserted(
                q,
                x,
                after,
            );
        let at = choose|at: int|
            0 <= at <= q.list.len() && after.list == #[trigger] q.list.insert(at, x);
        assert(pre.sys.slots.contains(Slot::Held(e0)));
        assert(present(pre, e0));
        assert forall|e: Entry| #[trigger] present(post, e) implies S::can_remove(after, e) by {
            if after.list.contains(e) {
                let i = choose|i: int| 0 <= i < after.list.len() && after.list[i] == e;
                if i < at {
                    assert(q.list[i] == e);
                    assert(q.list.contains(e));
                } else if i > at {
                    assert(q.list[i - 1] == e);
                    assert(q.list.contains(e));
                }
            } else if post.sys.slots.contains(Slot::Held(e)) {
                let t = choose|t: int|
                    0 <= t < post.sys.slots.len() && post.sys.slots[t] == Slot::Held(e);
                assert(pre.sys.slots[t] == Slot::Held(e));
                assert(pre.sys.slots.contains(Slot::Held(e)));
            }
            if present(pre, e) {
                lemma_present_sound(pre, e);
                S::adds_can_remove(e0, q, after, e);
            } else {
                assert(e == x);
                S::adds_can_remove(e0, q, after, e0);
                S::can_remove_akin(after, e0, x);
            }
        }
    }
}

/// A task that is added to the ready queue of a processor does no harm.
proof fn lemma_enqueued_on_removable<S: RemovableScheduler>(
    pre: KernelView,
    cpu: usize,
    task: AxTaskRef,
    post: KernelView,
)
    requires
        pre.wf(),
        can_remove::<S>(pre),
        pre.sys.valid(task),
        pre.has_processor(cpu),
        processor::enqueued_on::<S>(pre, cpu, task, post),
    ensures
        can_remove::<S>(post),
{
    if pre.sys.slots[task as int] is Held {
        let rq = pre.sys.run_queue;
        let q = pre.proc(cpu).ready;
        let after = post.proc(cpu).ready;
        let e0 = pre.sys.slots[task as int]->Held_0;
        processor::lemma_ready_queue(pre, cpu, task);
        S::adds_inserts(e0, q, after);
        let x = choose|x: Entry|
            x.id == e0.id && sched::akin(e0, x) && sched::fits(x) && #[trigger] sched::inserted(
                q,
                x,
                after,
            );
        let at = choose|at: int|
            0 <= at <= q.list.len() && after.list == #[trigger] q.list.insert(at, x);
        assert(pre.sys.slots.contains(Slot::Held(e0)));
        assert(present(pre, e0));
        assert(pre.processors[cpu as int] is Some);
        assert forall|e: Entry| #[trigger] present(post, e) implies S::can_remove(rq, e) by {
            if rq.list.contains(e) {
                assert(present(pre, e));
            } else if post.sys.slots.contains(Slot::Held(e)) {
                let t = choose|t: int|
                    0 <= t < post.sys.slots.len() && post.sys.slots[t] == Slot::Held(e);
                assert(pre.sys.slots[t] == Slot::Held(e));
                assert(pre.sys.slots.contains(Slot::Held(e)));
                assert(present(pre, e));
            } else {
                let c = choose|c: int|
                    0 <= c < post.processors.len() && (#[trigger] post.processors[c]) is Some
                        && post.processors[c]->0.ready.list.contains(e);
                if c == cpu {
                    let i = choose|i: int| 0 <= i < after.list.len() && after.list[i] == e;
                    if i < at {
                        assert(q.list[i] == e);
                        assert(q.list.contains(e));
                        assert(present(pre, e));
                    } else if i > at {
                        assert(q.list[i - 1] == e);
                        assert(q.list.contains(e));
                        assert(present(pre, e));
                    } else {
                        S::can_remove_akin(rq, e0, x);
                    }
                } else {
                    assert(pre.processors[c] is Some);
                    assert(present(pre, e));
                }
            }
        }
    }
}

/// Items are where they were if the ready queues and the places of the items are the same.
proof fn lemma_same_items<S: RemovableScheduler>(pre: KernelView, post: KernelView)
    requires
        can_remove::<S>(pre),
        post.sys.run_queue == pre.sys.run_queue,
        post.sys.slots == pre.sys.slots,
        post.processors == pre.processors,
    ensures
        can_remove::<S>(post),
{
    assert forall|e: Entry| #[trigger] present(post, e) implies S::can_remove(
        post.sys.run_queue,
        e,
    ) by {
        assert(present(pre, e));
    }
}

/// Handing over an exited task does no harm.
pub proof fn lemma_cleared_removable<S: RemovableScheduler>(
    pre: KernelView,
    cpu: usize,
    task: AxTaskRef,
    post: KernelView,
)
    requires
        pre.wf(),
        can_remove::<S>(pre),
        pre.sys.valid(task),
        exit::can_wake_first(pre, cpu, pre.gc_waiters),
        gc_cleared::<S>(pre, cpu, task, post),
    ensures
        can_remove::<S>(post),
{
    let mid = KernelView { exited: pre.exited.push(task), ..pre };
    assert(mid.wf());
    lemma_same_items::<S>(pre, mid);
    if pre.gc_waiters.len() > 0 {
        let first = pre.gc_waiters[0];
        assert(pre.sys.valid(first));
        let ready = mid.with_sys(mid.sys.with_state(first, TaskState::Runable));
        lemma_sys_changed(mid, ready.sys);
        lemma_same_items::<S>(mid, ready);
        assert(mid.has_processor(cpu) == pre.has_processor(cpu));
        if mid.sys.state(first) == TaskState::Blocked {
            if mid.has_processor(cpu) {
                let mask = mid.sys.tasks[first as int].cpumask;
                let (index, sel) = choose|index: usize, sel: KernelView|
                    {
                        &&& #[trigger] processor::selected(ready, mask, index, sel)
                        &&& processor::enqueued_on::<S>(sel, index, first, post)
                    };
                processor::lemma_selected(ready, mask, index, sel);
                lemma_same_items::<S>(ready, sel);
                assert(sel.wf());
                assert(sel.processors[index as int] is Some);
                lemma_enqueued_on_removable::<S>(sel, index, first, post);
            } else {
                lemma_enqueued_removable::<S>(ready, first, post);
            }
        } else {
            lemma_same_items::<S>(mid, post);
        }
    }
}

/// A task can still be taken out of the run queue once it has ended and was handed over to be dropped.
pub proof fn lemma_removable_ended<S: RemovableScheduler>(
    pre: KernelView,
    cpu: usize,
    task: AxTaskRef,
    ended: KernelView,
    post: KernelView,
)
    requires
        pre.wf(),
        can_remove::<S>(pre),
        pre.sys.valid(task),
        pre.sys.state(task) == TaskState::Runable,
        exit::can_wake_first(pre, cpu, pre.gc_waiters),
        ended == pre.with_sys(pre.sys.with_state(task, TaskState::Exited)),
        gc_cleared::<S>(ended, cpu, task, post),
    ensures
        can_remove::<S>(post),
        system::can_take_out::<S>(post.sys),
{
    lemma_sys_changed(pre, ended.sys);
    exit::lemma_can_wake_ended(pre, cpu, task, pre.gc_waiters);
    lemma_same_items::<S>(pre, ended);
    lemma_cleared_removable::<S>(ended, cpu, task, post);
    assert forall|e: Entry| #[trigger] system::present(post.sys, e) implies S::can_remove(
        post.sys.run_queue,
        e,
    ) by {
        assert(present(post, e));
    }
}

/// Ends another task than the running one, for `exec` and `exit` to clear away background threads.
pub fn remove_task<S: RemovableScheduler>(k: &mut Kernel<S>, cpu: usize, task: AxTaskRef)
    requires
        old(k).wf(),
        old(k)@.sys.valid(task),
        old(k)@.sys.state(task) != TaskState::Running,
        !old(k)@.sys.inner(task).is_idle,
        !(old(k)@.sys.slots[task as int] is Processor),
        exit::can_wake_first(old(k)@, cpu, old(k)@.gc_waiters),
        can_remove::<S>(old(k)@),
    ensures
        final(k).wf(),
        task_removed::<S>(old(k)@, cpu, task, final(k)@),
{
    let ghost pre = k@;
    if k.system.tasks[task].is_runable() {
        k.system.set_state(task, TaskState::Exited);
        proof {
            lemma_sys_changed(pre, k@.sys);
            exit::lemma_can_wake_ended(pre, cpu, task, pre.gc_waiters);
        }
        let ghost ended = k@;
        gc_clear(k, cpu, task);
        let ghost a = k@;
        proof {
            lemma_removable_ended::<S>(pre, cpu, task, ended, a);
        }
        k.system.take_out(task);
        proof {
            lemma_waiting_removed::<S>(a, task, k@.sys);
            lemma_places_kept(a, k@.sys);
        }
    }
}

/// What waits on the processors stays sound when a task is taken out of the run queue.
proof fn lemma_waiting_removed<S: RemovableScheduler>(
    pre: KernelView,
    task: AxTaskRef,
    post: SystemView,
)
    requires
        pre.wf(),
        can_remove::<S>(pre),
        taken_out::<S>(pre.sys, task, post),
    ensures
        forall|c: int|
            0 <= c < pre.processors.len() && (#[trigger] pre.processors[c]) is Some ==> waiting_sound(
                post.run_queue,
                pre.processors[c]->0.ready,
            ),
{
    if pre.sys.slots[task as int] is RunQueue {
        assert forall|c: int|
            0 <= c < pre.processors.len() && (
            #[trigger] pre.processors[c]) is Some implies waiting_sound(
            post.run_queue,
            pre.processors[c]->0.ready,
        ) by {
            let p = pre.processors[c]->0.ready;
            lemma_waiting_sound(pre.sys.run_queue, p);
            assert forall|i: int| 0 <= i < p.list.len() implies sched::sound(
                post.run_queue,
                #[trigger] p.list[i],
            ) by {
                assert(p.list.contains(p.list[i]));
                assert(present(pre, p.list[i]));
                S::removes_sound(pre.sys.run_queue, task, post.run_queue, p.list[i]);
            }
            reveal(waiting_sound);
        }
    }
}

/// The kernel after one round of the task that drops exited tasks, which runs on CPU `cpu`, before the
/// task blocks.
pub open spec fn gc_waiting(pre: KernelView, cpu: usize, holders: Seq<usize>) -> KernelView {
    KernelView {
        exited: pre.exited.filter(exit::still_held(holders)),
        gc_waiters: pre.gc_waiters.push(pre.sys.curr(cpu)),
        ..wait_queue::waiting(pre, cpu)
    }
}

/// One round of the task that drops exited tasks, which runs on CPU `cpu`: takes out those that nobody
/// else holds, which are to be dropped, and waits for the next exit. When the task runs again,
/// [`gc_resume`] follows, then the next round.
pub fn gc_entry<S: BaseScheduler>(k: &mut Kernel<S>, cpu: usize, holders: &Vec<usize>) -> (r: (
    Vec<AxTaskRef>,
    Switched,
))
    requires
        old(k).wf(),
        holders@.len() >= old(k)@.sys.tasks.len(),
        wait_queue::can_wait(old(k)@, cpu, false),
    ensures
        final(k).wf(),
        r.0@ == old(k)@.exited.filter(exit::last_held(holders@)),
        block::blocked::<S>(gc_waiting(old(k)@, cpu, holders@), cpu, final(k)@, r.1),
{
    let ghost pre = k@;
    let dropped = gc_pass(&mut k.exited_tasks, holders);
    k.wait_for_exit.enter(&mut k.system, cpu);
    proof {
        lemma_filtered_valid(pre.sys, pre.exited, exit::still_held(holders@));
        lemma_sys_changed(pre, k@.sys);
        assert(k@.has_processor(cpu) == pre.has_processor(cpu));
    }
    (dropped, block::block_current(k, cpu))
}

/// Ends the wait of the task `task` that drops exited tasks, which runs again.
pub fn gc_resume<S: BaseScheduler>(k: &mut Kernel<S>, task: AxTaskRef)
    requires
        old(k).wf(),
    ensures
        final(k).wf(),
        final(k)@ == (KernelView {
            gc_waiters: without(old(k)@.gc_waiters, task),
            ..old(k)@
        }),
{
    proof {
        lemma_filtered_valid(k@.sys, k@.gc_waiters, other_than(task));
    }
    k.wait_for_exit.leave(task);
}

/// The stack size of an idle task.
pub const IDLE_TASK_STACK_SIZE: usize = 4096;

/// The kernel `post` is the kernel `pre` with the run queue and its three tasks on CPU `cpu`.
pub open spec fn initialized<S: BaseScheduler>(
    pre: KernelView,
    cpu: usize,
    idle_alloc: Allocation,
    gc_alloc: Allocation,
    main_tls: usize,
    post: KernelView,
) -> bool {
    let idle = pre.sys.tasks.len() as usize;
    let main = (idle + 1) as usize;
    let gc = (idle + 2) as usize;
    let (config, cpus) = (pre.sys.config, pre.processors.len() as usize);
    let main_task = ScheduleTask { state: TaskState::Runable, ..post.sys.tasks[main as int] };
    &&& is_kernel_task(
        post.sys.tasks[idle as int],
        config,
        cpus,
        "idle"@,
        IDLE_TASK_STACK_SIZE,
        idle_alloc,
    )
    &&& is_boot_task(main_task, config, cpus, "main"@, main_tls)
    &&& is_kernel_task(
        post.sys.tasks[gc as int],
        config,
        cpus,
        "gc"@,
        config.task_stack_size,
        gc_alloc,
    )
    &&& S::adds(S::initial(gc), Ready::none(), post.sys.run_queue)
    &&& post == ({
        let all = pre.with_new_task(
            post.sys.tasks[idle as int],
            S::initial(idle),
        ).with_new_task(main_task, S::initial(main)).with_new_task(
            post.sys.tasks[gc as int],
            S::initial(gc),
        );
        all.with_sys(
            (SystemView {
                idle: all.sys.idle.update(cpu as int, Some(idle)),
                run_queue: post.sys.run_queue,
                ..all.sys
            }).with_state(main, TaskState::Running).with_slot(gc, Slot::RunQueue).with_current(
                cpu,
                main,
            ),
        )
    })
}

/// The thread pointer that a CPU with the thread-local storage `tls_ptr` has to write, if any.
pub open spec fn thread_pointer(config: Config, tls_ptr: usize) -> Option<usize> {
    if config.tls {
        Some(tls_ptr)
    } else {
        None
    }
}

/// Initializes the run queue and the first CPU: makes its idle task, the task that drops exited tasks,
/// and the task that runs already. Hands out the thread pointer that is to be written, if any.
#[verifier::rlimit(40)]
pub fn init<S: BaseScheduler>(
    k: &mut Kernel<S>,
    cpu: usize,
    idle_alloc: Allocation,
    gc_alloc: Allocation,
    main_tls: usize,
) -> (tls: Option<usize>)
    requires
        old(k).wf(),
        cpu < old(k)@.sys.current.len(),
        old(k)@.sys.idle[cpu as int] is None,
        old(k)@.sys.run_queue.len() == 0,
        sched::countable(old(k)@.sys.tasks.len() + 3),
        fits(old(k)@.sys.config, idle_alloc),
        fits(old(k)@.sys.config, gc_alloc),
    ensures
        final(k).wf(),
        initialized::<S>(old(k)@, cpu, idle_alloc, gc_alloc, main_tls, final(k)@),
        tls == thread_pointer(old(k)@.sys.config, main_tls),
{
    let ghost pre = k@;
    let idle = new_kernel_task(k, "idle", IDLE_TASK_STACK_SIZE, idle_alloc);
    let main = new_boot_task(k, "main", main_tls);
    let stack_size = k.system.config.task_stack_size;
    let gc = new_kernel_task(k, "gc", stack_size, gc_alloc);
    let ghost all = k@;
    k.system.idle_tasks[cpu] = Some(idle);
    k.system.set_state(main, TaskState::Running);
    k.system.enqueue_first(gc);
    let tls = CurrentTask::init_current(&mut k.system, cpu, main);
    proof {
        lemma_sys_idle_changed(all, k@.sys);
    }
    assert(k@.sys.tasks[idle as int] == all.sys.tasks[idle as int]);
    assert(k@.sys.tasks[gc as int] == all.sys.tasks[gc as int]);
    assert(all.sys.tasks =~= pre.sys.tasks.push(all.sys.tasks[idle as int]).push(
        all.sys.tasks[main as int],
    ).push(all.sys.tasks[gc as int]));
    tls
}

/// The kernel `post` is the kernel `pre` with CPU `cpu` running its idle task.
pub open spec fn initialized_secondary<S: BaseScheduler>(
    pre: KernelView,
    cpu: usize,
    tls_ptr: usize,
    post: KernelView,
) -> bool {
    let idle = pre.sys.tasks.len() as usize;
    let idle_task = ScheduleTask { state: TaskState::Runable, ..post.sys.tasks[idle as int] };
    &&& is_boot_task(
        idle_task,
        pre.sys.config,
        pre.processors.len() as usize,
        "idle"@,
        tls_ptr,
    )
    &&& post == ({
        let all = pre.with_new_task(idle_task, S::initial(idle));
        all.with_sys(
            (SystemView {
                idle: all.sys.idle.update(cpu as int, Some(idle)),
                ..all.sys
            }).with_state(idle, TaskState::Running).with_current(cpu, idle),
        )
    })
}

/// Initializes another CPU: it runs its idle task. Hands out the thread pointer that is to be written,
/// if any.
pub fn init_secondary<S: BaseScheduler>(k: &mut Kernel<S>, cpu: usize, tls_ptr: usize) -> (tls:
    Option<usize>)
    requires
        old(k).wf(),
        sched::countable(old(k)@.sys.tasks.len() + 1),
        cpu < old(k)@.sys.current.len(),
        old(k)@.sys.idle[cpu as int] is None,
    ensures
        final(k).wf(),
        initialized_secondary::<S>(old(k)@, cpu, tls_ptr, final(k)@),
        tls == thread_pointer(old(k)@.sys.config, tls_ptr),
{
    let ghost pre = k@;
    let idle = new_boot_task(k, "idle", tls_ptr);
    let ghost all = k@;
    k.system.idle_tasks[cpu] = Some(idle);
    k.system.set_state(idle, TaskState::Running);
    let tls = CurrentTask::init_current(&mut k.system, cpu, idle);
    proof {
        lemma_sys_idle_changed(all, k@.sys);
    }
    assert(all.sys.tasks =~= pre.sys.tasks.push(all.sys.tasks[idle as int]));
    tls
}

impl<S: BaseScheduler> System<S> {
    /// Makes a run queue with one task in it.
    fn enqueue_first(&mut self, task: AxTaskRef)
        requires
            old(self).wf(),
            old(self)@.valid(task),
            old(self)@.run_queue.len() == 0,
            old(self)@.slots[task as int] is Held,
        ensures
            final(self).wf(),
            old(self)@.same_frame(final(self)@),
            S::adds(
                old(self)@.slots[task as int]->Held_0,
                Ready::none(),
                final(self)@.run_queue,
            ),
            final(self)@ == (SystemView {
                run_queue: final(self)@.run_queue,
                ..old(self)@
            }).with_slot(task, Slot::RunQueue),
    {
        let ghost pre = self@;
        let item = self.take_item(task);
        self.run_queue = AxRunQueue::new(item);
        proof {
            let e = S::entry(item);
            assert(pre.run_queue.list =~= Ready::none().list);
            lemma_held_sound(pre.run_queue, pre.slots, task);
            lemma_sound_at_zero(Ready::none(), e);
            S::adds_inserts(e, Ready::none(), self@.run_queue);
            let x = choose|x: Entry|
                x.id == task && sched::akin(e, x) && sched::fits(x) && #[trigger] sched::inserted(
                    Ready::none(),
                    x,
                    self@.run_queue,
                );
            lemma_into_run_queue(pre, task, x, self@);
        }
    }
}

/// A change of the system that leaves the ready queues of the processors alone keeps the whole sound;
/// the idle tasks of the CPUs may change.
proof fn lemma_sys_idle_changed(pre: KernelView, sys: SystemView)
    requires
        pre.wf(),
        sys.wf(),
        pre.sys.same_frame(SystemView { idle: pre.sys.idle, ..sys }),
    ensures
        pre.with_sys(sys).wf(),
{
    let mid = SystemView { idle: pre.sys.idle, ..sys };
    lemma_sys_changed(pre, mid);
    let v = pre.with_sys(mid);
    let post = pre.with_sys(sys);
    assert forall|c: int|
        0 <= c < post.processors.len() && (
        #[trigger] post.processors[c]) is Some implies processor_wf(
        sys,
        c as usize,
        post.processors[c]->0,
    ) by {
        assert(v.processors[c] is Some);
    }
}

/// A set of numbers below `n` has at most `n` of them.
proof fn lemma_bounded(s: Set<usize>, n: nat)
    requires
        s.finite(),
        forall|t: usize| #[trigger] s.contains(t) ==> t < n,
    ensures
        s.len() <= n,
{
    let all = vstd::set_lib::set_int_range(0, n as int);
    vstd::set_lib::lemma_int_range(0, n as int);
    let f = |t: usize| t as int;
    vstd::set_lib::lemma_map_size(s, s.map(f), f);
    vstd::set_lib::lemma_len_subset(s.map(f), all);
}

} // verus!
