//! Blocking and waking tasks, whatever a CPU takes its tasks from.
//!
//! A CPU that has a processor schedules on it; any other CPU takes part in the shared run queue. On
//! both, a wake-up that finds a task running is counted, and a task with counted wake-ups does not block
//! but uses them up.
use crate::config::TimeValue;
use crate::kernel;
use crate::kernel::{Kernel, KernelView};
use crate::processor::ProcessorView;
use crate::processor_ref;
use crate::run_queue;
use crate::run_queue::Alarm;
use crate::sched::BaseScheduler;
use crate::schedule;
use crate::system::{AxTaskRef, Switched};
use crate::task::TaskState;
use crate::wait_queue;
use vstd::prelude::*;

verus! {

/// What [`block_current`] asks of the kernel: a task that can run on and is no idle task runs on CPU
/// `cpu`; and if it has to block, it may be left.
pub open spec fn can_block(v: KernelView, cpu: usize) -> bool {
    if v.has_processor(cpu) {
        let curr = v.sys.curr(cpu);
        &&& processor_ref::runs_on(v, cpu)
        &&& v.sys.state(curr) == TaskState::Runable
        &&& !v.sys.inner(curr).is_idle
        &&& v.sys.inner(curr).wakeup_cnt == 0 ==> schedule::can_schedule(v, cpu)
    } else {
        run_queue::can_block(v.sys, cpu)
    }
}

/// The running task of CPU `cpu` blocks, unless it was woken in the meantime: then it goes on, and its
/// wake-ups are used up.
pub open spec fn blocked<S: BaseScheduler>(
    pre: KernelView,
    cpu: usize,
    post: KernelView,
    work: Switched,
) -> bool {
    let curr = pre.sys.curr(cpu);
    if pre.has_processor(cpu) {
        if pre.sys.inner(curr).wakeup_cnt > 0 {
            post == wait_queue::waiting(pre, cpu) && work == Switched::Stay
        } else {
            schedule::scheduled::<S>(
                pre.with_sys(pre.sys.with_state(curr, TaskState::Blocking)),
                cpu,
                post,
                work,
            )
        }
    } else {
        &&& run_queue::blocked::<S>(pre.sys, cpu, post.sys, work)
        &&& post == pre.with_sys(post.sys)
    }
}

/// Blocks the running task of CPU `cpu` and goes over to the next one. A task that was woken since its
/// wake-ups were last forgotten does not block; they are forgotten instead.
pub fn block_current<S: BaseScheduler>(k: &mut Kernel<S>, cpu: usize) -> (work: Switched)
    requires
        old(k).wf(),
        can_block(old(k)@, cpu),
    ensures
        final(k).wf(),
        blocked::<S>(old(k)@, cpu, final(k)@, work),
{
    let ghost pre = k@;
    if !k.has_processor(cpu) {
        let work = run_queue::block_current(&mut k.system, cpu);
        proof {
            kernel::lemma_sys_changed(pre, k@.sys);
        }
        return work;
    }
    let curr = k.system.curr(cpu);
    if k.system.tasks[curr].inner.wakeup_cnt > 0 {
        k.system.reset_wakeup_cnt(curr);
        proof {
            kernel::lemma_sys_changed(pre, k@.sys);
        }
        return Switched::Stay;
    }
    k.system.set_state(curr, TaskState::Blocking);
    proof {
        kernel::lemma_sys_changed(pre, k@.sys);
    }
    schedule::schedule(k, cpu)
}

/// Lets the running task of CPU `cpu` sleep until it is woken. The alarm that is handed out is to be set
/// before the switch is carried out; when the task runs again,
/// [`schedule_timeout_resume`](run_queue::schedule_timeout_resume) follows.
pub fn schedule_timeout<S: BaseScheduler>(
    k: &mut Kernel<S>,
    cpu: usize,
    deadline: TimeValue,
) -> (r: (Alarm, Switched))
    requires
        old(k).wf(),
        old(k)@.sys.running(cpu),
        can_block(wait_queue::waiting(old(k)@, cpu), cpu),
    ensures
        final(k).wf(),
        r.0 == (Alarm { deadline, task: old(k)@.sys.curr(cpu) }),
        blocked::<S>(wait_queue::waiting(old(k)@, cpu), cpu, final(k)@, r.1),
{
    let curr = k.system.curr(cpu);
    k.system.reset_wakeup_cnt(curr);
    proof {
        kernel::lemma_sys_changed(old(k)@, k@.sys);
    }
    let work = block_current(k, cpu);
    (Alarm { deadline, task: curr }, work)
}

/// What [`wake_task`] asks of the kernel.
pub open spec fn can_wake(v: KernelView, cpu: usize, task: AxTaskRef, resched: bool) -> bool {
    let t = v.sys.tasks[task as int];
    if v.has_processor(cpu) {
        &&& t.state == TaskState::Blocking || t.state == TaskState::Blocked ==> !t.state_locked
        &&& t.state == TaskState::Blocked ==> {
            &&& processor_ref::can_select(v, t.cpumask)
            &&& run_queue::can_wake(v.sys, cpu, resched)
        }
    } else {
        t.state == TaskState::Blocked ==> run_queue::can_wake(v.sys, cpu, resched)
    }
}

/// CPU `cpu` wakes the task `task`: a blocked task can run again and goes into a ready queue, and
/// preemption of the running task becomes pending if `resched` asks for it; a task that is about to
/// block goes on instead; for a task that a CPU runs the wake-up is counted, as it may be on its way to
/// block; any other task is left alone.
pub open spec fn woken<S: BaseScheduler>(
    pre: KernelView,
    cpu: usize,
    task: AxTaskRef,
    resched: bool,
    post: KernelView,
) -> bool {
    if pre.has_processor(cpu) {
        match pre.sys.state(task) {
            TaskState::Blocked => exists|mid: KernelView|
                {
                    &&& #[trigger] schedule::woken_up::<S>(pre, task, mid)
                    &&& post == if resched && pre.sys.config.preempt {
                        mid.with_sys(mid.sys.with_pending(pre.sys.curr(cpu), true))
                    } else {
                        mid
                    }
                },
            TaskState::Blocking => schedule::woken_up::<S>(pre, task, post),
            TaskState::Runable => post == if pre.sys.is_current(task) {
                pre.with_sys(run_queue::wakeup_counted(pre.sys, task))
            } else {
                pre
            },
            _ => post == pre,
        }
    } else {
        &&& run_queue::woken::<S>(pre.sys, cpu, task, resched, post.sys)
        &&& post == pre.with_sys(post.sys)
    }
}

/// What waking tasks leaves of a kernel: all but the states of blocked tasks, the counts of wake-ups,
/// what is pending, and the ready queues.
pub open spec fn waking_keeps(pre: KernelView, post: KernelView) -> bool {
    &&& run_queue::waking_keeps(pre.sys, post.sys)
    &&& post.exited == pre.exited
    &&& post.gc_waiters == pre.gc_waiters
    &&& post.joins == pre.joins
    &&& post.processors.len() == pre.processors.len()
    &&& forall|c: int|
        #![trigger pre.processors[c]]
        #![trigger post.processors[c]]
        0 <= c < pre.processors.len() ==> kept_processor(pre.processors[c], post.processors[c])
}

/// What waking tasks leaves of a processor: all but its ready queue.
pub open spec fn kept_processor(pre: Option<ProcessorView>, post: Option<ProcessorView>) -> bool {
    match (pre, post) {
        (Some(p), Some(q)) => q == (ProcessorView { ready: q.ready, ..p }),
        (None, None) => true,
        _ => false,
    }
}

/// Nothing changes when nobody is woken.
pub proof fn lemma_waking_none(v: KernelView)
    ensures
        waking_keeps(v, v),
{
}

/// What is kept by waking is kept by waking more.
pub proof fn lemma_waking_keeps(a: KernelView, b: KernelView, c: KernelView)
    requires
        waking_keeps(a, b),
        waking_keeps(b, c),
    ensures
        waking_keeps(a, c),
{
    run_queue::lemma_waking_keeps(a.sys, b.sys, c.sys);
    assert forall|i: int|
        #![trigger a.processors[i]]
        #![trigger c.processors[i]]
        0 <= i < a.processors.len() implies kept_processor(a.processors[i], c.processors[i]) by {
        assert(kept_processor(a.processors[i], b.processors[i]));
        assert(kept_processor(b.processors[i], c.processors[i]));
    }
}

/// Who can be woken can be woken after others.
pub proof fn lemma_can_wake_kept(
    pre: KernelView,
    post: KernelView,
    cpu: usize,
    task: AxTaskRef,
    resched: bool,
)
    requires
        waking_keeps(pre, post),
        pre.sys.valid(task),
        can_wake(pre, cpu, task, resched),
    ensures
        can_wake(post, cpu, task, resched),
{
    assert(run_queue::kept_by_waking(pre.sys.tasks[task as int], post.sys.tasks[task as int]));
    if cpu < pre.processors.len() {
        assert(kept_processor(pre.processors[cpu as int], post.processors[cpu as int]));
    }
    let mask = pre.sys.tasks[task as int].cpumask;
    if pre.has_processor(cpu) && processor_ref::can_select(pre, mask) {
        assert forall|c: int|
            0 <= c < post.processors.len() && #[trigger] mask.holds(
                c,
            ) implies post.processors[c] is Some by {
            assert(kept_processor(pre.processors[c], post.processors[c]));
        }
    }
}

/// Waking a task moves no task but to `Runable`, and only from `Blocked` or `Blocking`. In particular a
/// task that has exited stays so.
pub proof fn lemma_woken<S: BaseScheduler>(
    pre: KernelView,
    cpu: usize,
    task: AxTaskRef,
    resched: bool,
    post: KernelView,
)
    requires
        pre.wf(),
        pre.sys.valid(task),
        can_wake(pre, cpu, task, resched),
        woken::<S>(pre, cpu, task, resched, post),
    ensures
        waking_keeps(pre, post),
{
    if !pre.has_processor(cpu) {
        run_queue::lemma_woken::<S>(pre.sys, cpu, task, resched, post.sys);
    } else if pre.sys.state(task) == TaskState::Blocked {
        let mid = choose|mid: KernelView|
            {
                &&& #[trigger] schedule::woken_up::<S>(pre, task, mid)
                &&& post == if resched && pre.sys.config.preempt {
                    mid.with_sys(mid.sys.with_pending(pre.sys.curr(cpu), true))
                } else {
                    mid
                }
            };
        schedule::lemma_woken_up::<S>(pre, task, mid);
        if resched && pre.sys.config.preempt {
            let curr = pre.sys.curr(cpu);
            assert(pre.sys.current[cpu as int] is Some);
            run_queue::lemma_pending_keeps(mid.sys, curr);
            lemma_waking_keeps(pre, mid, post);
        }
    } else if pre.sys.state(task) == TaskState::Blocking {
        schedule::lemma_woken_up::<S>(pre, task, post);
    }
}

/// Wakes a task, on CPU `cpu`. If `resched`, the running task will be preempted when the preemption is
/// enabled.
pub fn wake_task<S: BaseScheduler>(k: &mut Kernel<S>, cpu: usize, task: AxTaskRef, resched: bool)
    requires
        old(k).wf(),
        old(k)@.sys.valid(task),
        can_wake(old(k)@, cpu, task, resched),
    ensures
        final(k).wf(),
        waking_keeps(old(k)@, final(k)@),
        woken::<S>(old(k)@, cpu, task, resched, final(k)@),
{
    let ghost pre = k@;
    if !k.has_processor(cpu) {
        run_queue::wake_task(&mut k.system, cpu, task, resched);
        proof {
            kernel::lemma_sys_changed(pre, k@.sys);
            lemma_woken::<S>(pre, cpu, task, resched, k@);
        }
        return ;
    }
    match k.system.tasks[task].state {
        TaskState::Blocked => {
            schedule::wakeup_task(k, task);
            let ghost mid = k@;
            proof {
                schedule::lemma_woken_up::<S>(pre, task, mid);
            }
            if resched && k.system.config.preempt {
                let curr = k.system.curr(cpu);
                k.system.set_preempt_pending(curr, true);
                proof {
                    kernel::lemma_sys_changed(mid, k@.sys);
                }
            }
        },
        TaskState::Blocking => {
            schedule::wakeup_task(k, task);
        },
        TaskState::Runable => {
            if k.system.is_current(task) {
                let cnt = k.system.tasks[task].inner.wakeup_cnt;
                k.system.tasks[task].inner.wakeup_cnt = cnt.wrapping_add(1);
                proof {
                    kernel::lemma_sys_changed(pre, k@.sys);
                }
            }
        },
        _ => {},
    }
    proof {
        lemma_woken::<S>(pre, cpu, task, resched, k@);
    }
}

} // verus!
