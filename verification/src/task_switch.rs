//! Changing between coroutines and threads.
//!
//! A task that is a coroutine runs when it is polled. Once it is interrupted, or yields in the middle,
//! it is a thread: it goes on from a context that was saved on its stack, and the CPU schedules on a free
//! stack of its processor in the meantime. When the context is restored the task is a coroutine again, and
//! the stack that the CPU scheduled on is free again.
//!
//! The stack that a task is left on stays with the task, lest its context be overwritten. When the task
//! has been polled to a halt there, the CPU goes on scheduling on that stack.
use crate::block;
use crate::kernel;
use crate::kernel::{Kernel, KernelView};
use crate::processor::ProcessorView;
use crate::processor_ref;
use crate::processor_ref::current_processor;
use crate::sched::BaseScheduler;
use crate::schedule;
use crate::system::{AxTaskRef, Switched, SystemView};
use crate::task::TaskInner;
use vstd::multiset::Multiset;
use vstd::prelude::*;

verus! {

/// The task `t`, left in the middle on the processor `p`, with its context saved at `ctx_ref`: it is a
/// thread, and if it ran on a stack of the pool, the stack stays with it.
pub open spec fn left_task(t: TaskInner, ctx_ref: usize, p: ProcessorView) -> TaskInner {
    TaskInner {
        ctx_ref,
        is_thread: true,
        stack: match p.curr_stack {
            Some(top) => Some(top),
            None => t.stack,
        },
        ..t
    }
}

/// The processor `p` uses a free stack; the one that was in use is not free again.
pub open spec fn scheduling(p: ProcessorView, spare: usize) -> ProcessorView {
    ProcessorView {
        stacks: processor_ref::without_free_stack(p).stacks,
        curr_stack: Some(processor_ref::free_stack(p, spare)),
        ..p
    }
}

/// A context fits below the top of the stack that CPU `cpu` takes next.
pub open spec fn can_prepare(v: KernelView, cpu: usize, spare: usize) -> bool {
    &&& v.has_processor(cpu)
    &&& v.sys.config.context_size <= processor_ref::free_stack(v.proc(cpu), spare)
}

/// CPU `cpu` uses a free stack.
pub open spec fn on_free_stack(pre: KernelView, cpu: usize, spare: usize) -> KernelView {
    let p = pre.proc(cpu);
    pre.with_proc(
        cpu,
        processor_ref::with_stack(
            processor_ref::without_free_stack(p),
            Some(processor_ref::free_stack(p, spare)),
        ),
    )
}

/// Where a new context is made when CPU `cpu` takes a free stack: at the top of the stack.
pub open spec fn new_context(pre: KernelView, cpu: usize, spare: usize) -> int {
    processor_ref::free_stack(pre.proc(cpu), spare) - pre.sys.config.context_size
}

/// Takes a free stack into use on CPU `cpu` and gives the place for the context to be made on it, which
/// also is its stack pointer. The context starts with [`switch_entry`]. If there is no free stack, the
/// new one is used whose top is `spare`.
pub fn prepare_new_ctx<S: BaseScheduler>(k: &mut Kernel<S>, cpu: usize, spare: usize) -> (ctx: usize)
    requires
        old(k).wf(),
        can_prepare(old(k)@, cpu, spare),
    ensures
        final(k).wf(),
        ctx == new_context(old(k)@, cpu, spare),
        final(k)@ == on_free_stack(old(k)@, cpu, spare),
{
    let processor = current_processor(k, cpu);
    let free_stack_top = processor.pick_stack(k, spare);
    processor.set_curr_stack(k, Some(free_stack_top));
    assert(k@.processors =~= on_free_stack(old(k)@, cpu, spare).processors);
    free_stack_top - k.system.config.context_size
}

/// CPU `cpu` uses the stack that stayed with the task that it runs, if there is one.
pub open spec fn stack_returned(pre: KernelView, cpu: usize) -> KernelView {
    let curr = pre.sys.curr(cpu);
    match pre.sys.inner(curr).stack {
        Some(top) => pre.with_sys(
            pre.sys.with_inner(curr, TaskInner { stack: None, ..pre.sys.inner(curr) }),
        ).with_proc(cpu, processor_ref::with_stack(pre.proc(cpu), Some(top))),
        None => pre,
    }
}

/// Lets CPU `cpu` use the stack that stayed with the task that it runs, if there is one.
fn return_stack<S: BaseScheduler>(k: &mut Kernel<S>, cpu: usize)
    requires
        old(k).wf(),
        processor_ref::runs_on(old(k)@, cpu),
    ensures
        final(k).wf(),
        final(k)@ == stack_returned(old(k)@, cpu),
{
    let ghost pre = k@;
    let curr = k.system.curr(cpu);
    if let Some(top) = k.system.tasks[curr].inner.stack {
        k.system.tasks[curr].inner.stack = None;
        proof {
            kernel::lemma_sys_changed(pre, k@.sys);
        }
        current_processor(k, cpu).set_curr_stack(k, Some(top));
    }
}

/// The running task of CPU `cpu` was interrupted, with its context saved at `ctx_ref`, and the CPU uses a
/// free stack.
pub open spec fn preempted(pre: KernelView, cpu: usize, ctx_ref: usize, spare: usize) -> KernelView {
    let curr = pre.sys.curr(cpu);
    let p = pre.proc(cpu);
    pre.with_sys(
        pre.sys.with_inner(curr, left_task(pre.sys.inner(curr), ctx_ref, p)),
    ).with_proc(cpu, scheduling(p, spare))
}

/// The running task of CPU `cpu` was left in the middle, with its context saved where it keeps it, and
/// the CPU uses a free stack. The task is no longer due for preemption.
pub open spec fn left(pre: KernelView, cpu: usize, spare: usize) -> KernelView {
    let curr = pre.sys.curr(cpu);
    preempted(
        processor_ref::claimed_on(pre, curr),
        cpu,
        pre.sys.inner(curr).ctx_ref,
        spare,
    )
}

/// Preempts the running task of CPU `cpu`, whose context was saved at `ctx_ref`. The context that is
/// handed out is to be made and switched to.
pub fn preempt_switch_entry<S: BaseScheduler>(
    k: &mut Kernel<S>,
    cpu: usize,
    ctx_ref: usize,
    spare: usize,
) -> (ctx: usize)
    requires
        old(k).wf(),
        processor_ref::runs_on(old(k)@, cpu),
        can_prepare(old(k)@, cpu, spare),
    ensures
        final(k).wf(),
        ctx == new_context(old(k)@, cpu, spare),
        final(k)@ == preempted(old(k)@, cpu, ctx_ref, spare),
{
    let ghost pre = k@;
    let prev_task = k.system.curr(cpu);
    let stack = current_processor(k, cpu).take_curr_stack(k);
    let ghost taken = k@;
    k.system.tasks[prev_task].inner.ctx_ref = ctx_ref;
    k.system.tasks[prev_task].inner.is_thread = true;
    if stack.is_some() {
        k.system.tasks[prev_task].inner.stack = stack;
    }
    proof {
        kernel::lemma_sys_changed(taken, k@.sys);
        assert(k@.sys.tasks =~= preempted(pre, cpu, ctx_ref, spare).sys.tasks);
        assert(k@.processors[cpu as int] is Some);
    }
    let ctx = prepare_new_ctx(k, cpu, spare);
    assert(k@.processors =~= preempted(pre, cpu, ctx_ref, spare).processors);
    ctx
}

/// Leaves the running task of CPU `cpu` in the middle. The context of the task is to be saved at the
/// first place that is handed out; the second is to be made and switched to. When the task runs again,
/// [`yield_switch_resume`] follows.
pub fn yield_switch_entry<S: BaseScheduler>(k: &mut Kernel<S>, cpu: usize, spare: usize) -> (r: (
    usize,
    usize,
))
    requires
        old(k).wf(),
        processor_ref::can_switch_on(old(k)@, cpu),
        can_prepare(old(k)@, cpu, spare),
    ensures
        final(k).wf(),
        r.0 == old(k)@.sys.inner(old(k)@.sys.curr(cpu)).ctx_ref,
        r.1 == new_context(old(k)@, cpu, spare),
        final(k)@ == left(old(k)@, cpu, spare),
{
    let ghost pre = k@;
    let prev_task = k.system.curr(cpu);
    if k.system.config.preempt {
        k.system.set_preempt_pending(prev_task, false);
    }
    proof {
        kernel::lemma_sys_changed(pre, k@.sys);
    }
    let ctx_ref = k.system.tasks[prev_task].inner.ctx_ref;
    let ctx = preempt_switch_entry(k, cpu, ctx_ref, spare);
    (ctx_ref, ctx)
}

/// A task that was left in the middle runs again on CPU `cpu`: the stack that the CPU scheduled on is
/// free again.
pub fn yield_switch_resume<S: BaseScheduler>(k: &mut Kernel<S>, cpu: usize)
    requires
        old(k).wf(),
        old(k)@.has_processor(cpu),
    ensures
        final(k).wf(),
        final(k)@ == old(k)@.with_proc(
            cpu,
            processor_ref::with_stack(old(k)@.proc(cpu), None),
        ),
{
    current_processor(k, cpu).set_curr_stack(k, None);
}

/// One round of what a CPU does on a free stack: it schedules, again and again.
pub fn switch_entry<S: BaseScheduler>(k: &mut Kernel<S>, cpu: usize) -> (work: Switched)
    requires
        old(k).wf(),
        schedule::can_schedule(old(k)@, cpu),
    ensures
        final(k).wf(),
        schedule::scheduled::<S>(old(k)@, cpu, final(k)@, work),
{
    schedule::schedule(k, cpu)
}

/// How the next task goes on.
#[derive(Clone, Copy, Debug, PartialEq, Eq, Structural)]
pub enum Next {
    /// From the context that was saved at this place.
    Restore(usize),
    /// By polling it; [`run_polled`] follows.
    Poll(AxTaskRef),
}

/// How the task `task` goes on: a thread from its saved context, a coroutine by being polled.
pub open spec fn next_step(v: SystemView, task: AxTaskRef) -> Next {
    if v.inner(task).is_thread {
        Next::Restore(v.inner(task).ctx_ref)
    } else {
        Next::Poll(task)
    }
}

/// The switch on CPU `cpu` is finished. If the task that it runs is a thread, its context is about to be
/// restored: it is a coroutine again, and the stack that the CPU scheduled on is free again.
pub open spec fn resumed(pre: KernelView, cpu: usize) -> KernelView {
    let curr = pre.sys.curr(cpu);
    let v = processor_ref::switch_finished(pre, cpu);
    if pre.sys.inner(curr).is_thread {
        v.with_sys(
            v.sys.with_inner(curr, TaskInner { is_thread: false, ..v.sys.inner(curr) }),
        ).with_proc(cpu, processor_ref::with_stack(v.proc(cpu), None))
    } else {
        v
    }
}

/// Finishes a switch on CPU `cpu`, then says how the task that runs now goes on.
pub fn run_next<S: BaseScheduler>(k: &mut Kernel<S>, cpu: usize) -> (r: Next)
    requires
        old(k).wf(),
        processor_ref::runs_on(old(k)@, cpu),
        old(k)@.proc(cpu).prev is Some,
    ensures
        final(k).wf(),
        final(k)@ == resumed(old(k)@, cpu),
        r == next_step(old(k)@.sys, old(k)@.sys.curr(cpu)),
{
    current_processor(k, cpu).switch_post(k);
    let curr = k.system.curr(cpu);
    if k.system.tasks[curr].inner.is_thread {
        let ghost mid = k@;
        k.system.tasks[curr].inner.is_thread = false;
        proof {
            kernel::lemma_sys_changed(mid, k@.sys);
        }
        let ctx_ref = k.system.tasks[curr].inner.ctx_ref;
        current_processor(k, cpu).set_curr_stack(k, None);
        Next::Restore(ctx_ref)
    } else {
        Next::Poll(curr)
    }
}

/// Goes on after the running coroutine of CPU `cpu` was polled: the CPU uses the stack that stayed with
/// it, if there is one. `ready` says whether the coroutine has come to its end: it is `Exited` before
/// those who wait for it are woken, then it is handed over to be dropped.
/// Whether the kernel ends with it, which it does with the task named `main_coroutine`.
pub fn run_polled<S: BaseScheduler>(k: &mut Kernel<S>, cpu: usize, ready: bool) -> (terminate: bool)
    requires
        old(k).wf(),
        processor_ref::runs_on(old(k)@, cpu),
        ready ==> processor_ref::can_tell_exit(old(k)@, cpu),
    ensures
        final(k).wf(),
        terminate == (ready && old(k)@.sys.inner(old(k)@.sys.curr(cpu)).name@ == "main_coroutine"@),
        if ready {
            processor_ref::exit_told::<S>(stack_returned(old(k)@, cpu), cpu, final(k)@)
        } else {
            final(k)@ == stack_returned(old(k)@, cpu)
        },
{
    let ghost pre = k@;
    return_stack(k, cpu);
    proof {
        if ready {
            lemma_returned_can_tell(pre, cpu);
        }
    }
    if !ready {
        return false;
    }
    let curr = k.system.curr(cpu);
    current_processor(k, cpu).tell_exit(k);
    k.system.tasks[curr].inner.name == "main_coroutine".to_owned()
}

/// Whom an exit can be told does not depend on who uses which stack.
proof fn lemma_returned_can_tell(pre: KernelView, cpu: usize)
    requires
        pre.wf(),
        processor_ref::runs_on(pre, cpu),
        processor_ref::can_tell_exit(pre, cpu),
    ensures
        processor_ref::runs_on(stack_returned(pre, cpu), cpu),
        processor_ref::can_tell_exit(stack_returned(pre, cpu), cpu),
{
    let post = stack_returned(pre, cpu);
    let curr = pre.sys.curr(cpu);
    assert(pre.sys.current[cpu as int] is Some);
    assert(pre.processors[cpu as int] is Some);
    assert(post.processors[cpu as int] is Some);
    assert forall|t: AxTaskRef|
        pre.sys.valid(t) && block::can_wake(pre, cpu, t, false) implies #[trigger] block::can_wake(
        post,
        cpu,
        t,
        false,
    ) by {
        let mask = pre.sys.tasks[t as int].cpumask;
        assert(post.sys.tasks[t as int].cpumask == mask);
        if processor_ref::can_select(pre, mask) {
            assert forall|c: int|
                0 <= c < post.processors.len() && #[trigger] mask.holds(
                    c,
                ) implies post.processors[c] is Some by {
                assert(pre.processors[c] is Some);
            }
        }
    }
    if pre.joins.contains_key(curr) {
        let q = pre.joins[curr];
        assert forall|i: int| 0 <= i < q.len() implies block::can_wake(
            post,
            cpu,
            #[trigger] q[i],
            false,
        ) by {
            assert(pre.sys.valid(q[i]));
            assert(block::can_wake(pre, cpu, q[i], false));
        }
    }
    let waiters = pre.proc(cpu).gc_waiters;
    if waiters.len() > 0 {
        assert(pre.sys.valid(waiters[0]));
        assert(block::can_wake(pre, cpu, waiters[0], false));
    }
}

/// The stacks that the processor of CPU `cpu` and the task `task` know of.
pub open spec fn known_stacks(v: KernelView, cpu: usize, task: AxTaskRef) -> Multiset<usize> {
    match v.sys.inner(task).stack {
        Some(top) => processor_ref::all_stacks(v.proc(cpu)).insert(top),
        None => processor_ref::all_stacks(v.proc(cpu)),
    }
}

/// No stack is lost or used twice when the running task of CPU `cpu` is interrupted: the stacks that the
/// processor and the task know of stay the same, but for `spare`, which is added if the pool was empty, and
/// the one that the task was left on is not free. (A task that has a stack with it runs on that one, so the
/// processor then uses none of the pool.)
pub proof fn lemma_stacks_left(pre: KernelView, cpu: usize, ctx_ref: usize, spare: usize)
    requires
        pre.wf(),
        processor_ref::runs_on(pre, cpu),
        pre.sys.inner(pre.sys.curr(cpu)).stack is None || pre.proc(cpu).curr_stack is None,
    ensures
        known_stacks(preempted(pre, cpu, ctx_ref, spare), cpu, pre.sys.curr(cpu))
            == with_spare(pre, cpu, spare),
        preempted(pre, cpu, ctx_ref, spare).proc(cpu).stacks
            == processor_ref::without_free_stack(pre.proc(cpu)).stacks,
{
    broadcast use vstd::seq_lib::group_to_multiset_ensures;

    let curr = pre.sys.curr(cpu);
    let p = pre.proc(cpu);
    let s = p.stacks;
    let post = preempted(pre, cpu, ctx_ref, spare);
    assert(pre.sys.current[cpu as int] is Some);
    assert(post.proc(cpu) == scheduling(p, spare));
    assert(post.sys.inner(curr) == left_task(pre.sys.inner(curr), ctx_ref, p));
    if s.len() > 0 {
        assert(s =~= s.drop_last().push(s.last()));
        assert(s.to_multiset() =~= s.drop_last().to_multiset().insert(s.last()));
    }
    match post.sys.inner(curr).stack {
        Some(x) => {
            assert(known_stacks(post, cpu, curr) =~= with_spare(pre, cpu, spare));
        },
        None => {},
    }
}

/// No stack is lost or used twice when the context of a task is restored or the task was polled to a
/// halt: the stacks that the processor and the task know of stay the same.
pub proof fn lemma_stacks_back(pre: KernelView, cpu: usize)
    requires
        pre.wf(),
        processor_ref::runs_on(pre, cpu),
    ensures
        pre.proc(cpu).prev is Some ==> known_stacks(resumed(pre, cpu), cpu, pre.sys.curr(cpu))
            == known_stacks(pre, cpu, pre.sys.curr(cpu)),
        known_stacks(stack_returned(pre, cpu), cpu, pre.sys.curr(cpu)) == known_stacks(
            pre,
            cpu,
            pre.sys.curr(cpu),
        ),
{
    broadcast use vstd::seq_lib::group_to_multiset_ensures;

    assert(pre.sys.current[cpu as int] is Some);
    processor_ref::lemma_stacks_kept(pre.proc(cpu), 0);
}

/// The stacks that the processor of CPU `cpu` and its task know of, and `spare` if none of them is free.
pub open spec fn with_spare(v: KernelView, cpu: usize, spare: usize) -> Multiset<usize> {
    if v.proc(cpu).stacks.len() > 0 {
        known_stacks(v, cpu, v.sys.curr(cpu))
    } else {
        known_stacks(v, cpu, v.sys.curr(cpu)).insert(spare)
    }
}

} // verus!
