//! How CPUs and tasks begin, and how a task that was left in the middle goes on.
//!
//! The laws here speak of the tasks that a CPU starts with, of the stacks that coroutines run on, and of whose
//! turn it is under each policy, in terms of the tasks, the stacks and the ready queues themselves.
use crate::config::Config;
use crate::kernel::KernelView;
use crate::processor_ref;
use crate::run_queue;
use crate::sched;
use crate::sched::BaseScheduler;
use crate::system::Slot;
use crate::task;
use crate::task::{Allocation, ScheduleTask, TaskStart, TaskState};
use crate::task_switch;
use crate::task_switch::Next;
use vstd::prelude::*;

verus! {

/// What a task of the kernel is: it starts with its function, and belongs to the kernel.
pub proof fn lemma_kernel_task(
    t: ScheduleTask,
    config: Config,
    cpus: usize,
    name: Seq<char>,
    stack_size: usize,
    alloc: Allocation,
)
    requires
        task::fits(config, alloc),
        task::is_kernel_task(t, config, cpus, name, stack_size, alloc),
    ensures
        task::first_step(config, t.inner) == TaskStart::Run,
        config.monolithic ==> t.inner.process_id == config.kernel_process_id,
        t.inner.page_table_token == 0,
        t.inner.name@ == name,
        t.inner.is_idle <==> name == "idle"@,
        !t.inner.is_init && !t.inner.is_leader && !t.inner.is_thread,
        t.inner.stack_size == stack_size,
        t.inner.kernel_stack_top == Some(alloc.stack_top),
        config.tls ==> t.inner.tls_ptr == alloc.tls_ptr,
        t.state == TaskState::Runable && !t.on_cpu && !t.state_locked,
{
}

/// What a task is that a CPU runs already when it is made: the kernel started with it, it belongs to the
/// kernel, and has nothing to start with.
pub proof fn lemma_boot_task(
    t: ScheduleTask,
    config: Config,
    cpus: usize,
    name: Seq<char>,
    tls_ptr: usize,
)
    requires
        task::is_boot_task(t, config, cpus, name, tls_ptr),
    ensures
        task::first_step(config, t.inner) == TaskStart::Nothing,
        config.monolithic ==> t.inner.process_id == config.kernel_process_id,
        t.inner.page_table_token == 0,
        t.inner.name@ == name,
        t.inner.is_idle <==> name == "idle"@,
        t.inner.is_init && !t.inner.is_leader && !t.inner.is_thread,
        config.tls ==> t.inner.tls_ptr == tls_ptr,
        t.state == TaskState::Runable && t.on_cpu && !t.state_locked,
{
}

/// What the first CPU starts with, where CPUs have processors. It runs the main task, with the thread-local
/// storage that it has; its processor has an idle task, and a task that drops exited tasks, which is alone
/// in the ready queue. Nobody has exited, no switch is under way, and all other tasks and CPUs are as before.
pub proof fn lemma_first_cpu<S: BaseScheduler>(
    pre: KernelView,
    cpu: usize,
    idle_alloc: Allocation,
    gc_alloc: Allocation,
    main_tls: usize,
    free_stack: usize,
    post: KernelView,
)
    requires
        pre.wf(),
        cpu < pre.processors.len(),
        sched::countable(pre.sys.tasks.len() + 3),
        task::fits(pre.sys.config, idle_alloc),
        task::fits(pre.sys.config, gc_alloc),
        processor_ref::initialized_on::<S>(
            pre,
            cpu,
            idle_alloc,
            gc_alloc,
            main_tls,
            free_stack,
            post,
        ),
    ensures
        post.processors[cpu as int] is Some,
        post.sys.current[cpu as int] is Some,
        post.sys.tasks.len() == pre.sys.tasks.len() + 3,
        ({
            let p = post.processors[cpu as int]->0;
            let main = post.sys.current[cpu as int]->0;
            let (main_task, idle_task, gc_task) = (
                post.sys.tasks[main as int],
                post.sys.tasks[p.idle as int],
                post.sys.tasks[p.gc as int],
            );
            &&& pre.sys.tasks.len() <= main < post.sys.tasks.len()
            &&& pre.sys.tasks.len() <= p.idle < post.sys.tasks.len()
            &&& pre.sys.tasks.len() <= p.gc < post.sys.tasks.len()
            &&& p.idle != main && p.gc != main && p.idle != p.gc
            &&& main_task.inner.name@ == "main"@ && main_task.inner.is_init
            &&& idle_task.inner.name@ == "idle"@ && idle_task.inner.is_idle
            &&& gc_task.inner.name@ == "gc"@ && !gc_task.inner.is_init
            &&& main_task.state == TaskState::Runable && main_task.on_cpu
            &&& idle_task.inner.stack_size == 4096
            &&& gc_task.inner.stack_size == pre.sys.config.task_stack_size
            &&& task::first_step(pre.sys.config, idle_task.inner) == TaskStart::Run
            &&& task::first_step(pre.sys.config, gc_task.inner) == TaskStart::Run
            &&& p.ready.list.len() == 1 && p.ready.list[0].id == p.gc
            &&& post.sys.slots[p.gc as int] == Slot::Processor(cpu)
            &&& post.sys.slots[main as int] is Held && post.sys.slots[p.idle as int] is Held
            &&& p.prev is None && p.exited.len() == 0 && p.gc_waiters.len() == 0
            &&& p.curr_stack is None
            &&& !pre.sys.config.coroutine ==> p.stacks.len() == 0
            &&& run_queue::thread_pointer(pre.sys.config, main_tls) == if pre.sys.config.tls {
                Some(main_task.inner.tls_ptr)
            } else {
                None
            }
            &&& pre.sys.config.tls ==> main_task.inner.tls_ptr == main_tls
            &&& post.joins.contains_key(main) && post.joins[main].len() == 0
            &&& post.joins.contains_key(p.gc) && post.joins[p.gc].len() == 0
        }),
        forall|t: int|
            #![trigger post.sys.tasks[t]]
            0 <= t < pre.sys.tasks.len() ==> post.sys.tasks[t] == pre.sys.tasks[t],
        forall|c: int|
            #![trigger post.sys.current[c]]
            0 <= c < pre.sys.current.len() && c != cpu ==> post.sys.current[c] == pre.sys.current[c],
        forall|c: int|
            #![trigger post.processors[c]]
            0 <= c < pre.processors.len() && c != cpu ==> post.processors[c] == pre.processors[c],
{
    let gc = (pre.sys.tasks.len() + 2) as usize;
    S::initial_id(gc);
    S::adds_inserts(S::initial(gc), sched::Ready::none(), post.proc(cpu).ready);
    lemma_names();
}

/// The names that tasks start with differ from that of idle tasks.
proof fn lemma_names()
    ensures
        "main"@ != "idle"@,
        "gc"@ != "idle"@,
{
    reveal_strlit("main");
    reveal_strlit("idle");
    reveal_strlit("gc");
    assert("main"@[0] == 'm');
    assert("idle"@[0] == 'i');
    assert("gc"@.len() == 2);
    assert("idle"@.len() == 4);
}

/// What any other CPU starts with, where CPUs have processors: it runs its idle task, and has a task that
/// drops exited tasks, which is alone in the ready queue. All other tasks and CPUs are as before.
pub proof fn lemma_other_cpu<S: BaseScheduler>(
    pre: KernelView,
    cpu: usize,
    gc_alloc: Allocation,
    tls_ptr: usize,
    free_stack: usize,
    post: KernelView,
)
    requires
        pre.wf(),
        cpu < pre.processors.len(),
        sched::countable(pre.sys.tasks.len() + 2),
        task::fits(pre.sys.config, gc_alloc),
        processor_ref::initialized_secondary_on::<S>(pre, cpu, gc_alloc, tls_ptr, free_stack, post),
    ensures
        post.processors[cpu as int] is Some,
        post.sys.tasks.len() == pre.sys.tasks.len() + 2,
        ({
            let p = post.processors[cpu as int]->0;
            let (idle_task, gc_task) = (
                post.sys.tasks[p.idle as int],
                post.sys.tasks[p.gc as int],
            );
            &&& post.sys.current[cpu as int] == Some(p.idle)
            &&& pre.sys.tasks.len() <= p.idle < post.sys.tasks.len()
            &&& pre.sys.tasks.len() <= p.gc < post.sys.tasks.len()
            &&& p.idle != p.gc
            &&& idle_task.inner.name@ == "idle"@ && idle_task.inner.is_idle
            &&& idle_task.state == TaskState::Runable && idle_task.on_cpu
            &&& gc_task.inner.name@ == "gc"@ && !gc_task.inner.is_init
            &&& gc_task.inner.stack_size == pre.sys.config.task_stack_size
            &&& task::first_step(pre.sys.config, gc_task.inner) == TaskStart::Run
            &&& p.ready.list.len() == 1 && p.ready.list[0].id == p.gc
            &&& post.sys.slots[p.gc as int] == Slot::Processor(cpu)
            &&& post.sys.slots[p.idle as int] is Held
            &&& p.prev is None && p.exited.len() == 0 && p.gc_waiters.len() == 0
            &&& p.curr_stack is None
            &&& p.stacks == if pre.sys.config.coroutine {
                seq![free_stack]
            } else {
                Seq::empty()
            }
            &&& run_queue::thread_pointer(pre.sys.config, tls_ptr) == if pre.sys.config.tls {
                Some(idle_task.inner.tls_ptr)
            } else {
                None
            }
            &&& pre.sys.config.tls ==> idle_task.inner.tls_ptr == tls_ptr
        }),
        forall|t: int|
            #![trigger post.sys.tasks[t]]
            0 <= t < pre.sys.tasks.len() ==> post.sys.tasks[t] == pre.sys.tasks[t],
        forall|c: int|
            #![trigger post.sys.current[c]]
            0 <= c < pre.sys.current.len() && c != cpu ==> post.sys.current[c] == pre.sys.current[c],
        forall|c: int|
            #![trigger post.processors[c]]
            0 <= c < pre.processors.len() && c != cpu ==> post.processors[c] == pre.processors[c],
{
    let gc = (pre.sys.tasks.len() + 1) as usize;
    S::initial_id(gc);
    S::adds_inserts(S::initial(gc), sched::Ready::none(), post.proc(cpu).ready);
}

/// What the first CPU starts with under the shared run queue: it runs the main task, has an idle task, and
/// the task that drops exited tasks is alone in the run queue.
pub proof fn lemma_first_cpu_shared<S: BaseScheduler>(
    pre: KernelView,
    cpu: usize,
    idle_alloc: Allocation,
    gc_alloc: Allocation,
    main_tls: usize,
    post: KernelView,
)
    requires
        pre.wf(),
        cpu < pre.sys.current.len(),
        sched::countable(pre.sys.tasks.len() + 3),
        task::fits(pre.sys.config, idle_alloc),
        task::fits(pre.sys.config, gc_alloc),
        run_queue::initialized::<S>(pre, cpu, idle_alloc, gc_alloc, main_tls, post),
    ensures
        post.sys.current[cpu as int] is Some,
        post.sys.idle[cpu as int] is Some,
        post.sys.tasks.len() == pre.sys.tasks.len() + 3,
        ({
            let main = post.sys.current[cpu as int]->0;
            let idle = post.sys.idle[cpu as int]->0;
            let gc = post.sys.run_queue.list[0].id;
            let (main_task, idle_task, gc_task) = (
                post.sys.tasks[main as int],
                post.sys.tasks[idle as int],
                post.sys.tasks[gc as int],
            );
            &&& pre.sys.tasks.len() <= main < post.sys.tasks.len()
            &&& pre.sys.tasks.len() <= idle < post.sys.tasks.len()
            &&& pre.sys.tasks.len() <= gc < post.sys.tasks.len()
            &&& idle != main && gc != main && idle != gc
            &&& main_task.inner.name@ == "main"@ && main_task.inner.is_init
            &&& main_task.state == TaskState::Running
            &&& idle_task.inner.name@ == "idle"@ && idle_task.inner.is_idle
            &&& idle_task.inner.stack_size == 4096
            &&& gc_task.inner.name@ == "gc"@ && !gc_task.inner.is_init
            &&& gc_task.inner.stack_size == pre.sys.config.task_stack_size
            &&& gc_task.state == TaskState::Runable
            &&& task::first_step(pre.sys.config, idle_task.inner) == TaskStart::Run
            &&& task::first_step(pre.sys.config, gc_task.inner) == TaskStart::Run
            &&& post.sys.run_queue.list.len() == 1
            &&& post.sys.slots[gc as int] is RunQueue
            &&& post.sys.slots[main as int] is Held && post.sys.slots[idle as int] is Held
            &&& pre.sys.config.tls ==> main_task.inner.tls_ptr == main_tls
        }),
        forall|t: int|
            #![trigger post.sys.tasks[t]]
            0 <= t < pre.sys.tasks.len() ==> post.sys.tasks[t] == pre.sys.tasks[t],
        forall|c: int|
            #![trigger post.sys.current[c]]
            0 <= c < pre.sys.current.len() && c != cpu ==> post.sys.current[c] == pre.sys.current[c],
{
    let gc = (pre.sys.tasks.len() + 2) as usize;
    S::initial_id(gc);
    S::adds_inserts(S::initial(gc), sched::Ready::none(), post.sys.run_queue);
    lemma_names();
}

/// What any other CPU starts with under the shared run queue: it runs its idle task.
pub proof fn lemma_other_cpu_shared<S: BaseScheduler>(
    pre: KernelView,
    cpu: usize,
    tls_ptr: usize,
    post: KernelView,
)
    requires
        pre.wf(),
        cpu < pre.sys.current.len(),
        sched::countable(pre.sys.tasks.len() + 1),
        run_queue::initialized_secondary::<S>(pre, cpu, tls_ptr, post),
    ensures
        post.sys.current[cpu as int] is Some,
        post.sys.idle[cpu as int] == post.sys.current[cpu as int],
        post.sys.tasks.len() == pre.sys.tasks.len() + 1,
        ({
            let idle = post.sys.current[cpu as int]->0;
            let t = post.sys.tasks[idle as int];
            &&& idle == pre.sys.tasks.len()
            &&& t.inner.name@ == "idle"@ && t.inner.is_idle
            &&& t.state == TaskState::Running
            &&& post.sys.slots[idle as int] is Held
            &&& pre.sys.config.tls ==> t.inner.tls_ptr == tls_ptr
        }),
        post.sys.run_queue == pre.sys.run_queue,
        forall|t: int|
            #![trigger post.sys.tasks[t]]
            0 <= t < pre.sys.tasks.len() ==> post.sys.tasks[t] == pre.sys.tasks[t],
        forall|c: int|
            #![trigger post.sys.current[c]]
            0 <= c < pre.sys.current.len() && c != cpu ==> post.sys.current[c] == pre.sys.current[c],
{
}

/// The stack on which a CPU schedules while its task is interrupted or left. It is a free one, or the spare
/// one if none is free; the context is at its top, and the stack that was in use before goes with the task.
/// The task goes on from its saved context, and no other task changes.
pub proof fn lemma_new_stack(
    pre: KernelView,
    cpu: usize,
    ctx_ref: usize,
    spare: usize,
    post: KernelView,
)
    requires
        pre.wf(),
        processor_ref::runs_on(pre, cpu),
        post == task_switch::preempted(pre, cpu, ctx_ref, spare),
    ensures
        ({
            let (p, q) = (pre.processors[cpu as int]->0, post.processors[cpu as int]->0);
            let curr = pre.sys.current[cpu as int]->0 as int;
            let (was, now) = (pre.sys.tasks[curr], post.sys.tasks[curr]);
            &&& q.curr_stack is Some
            &&& q.curr_stack->0 == task_switch::new_context(pre, cpu, spare)
                + pre.sys.config.context_size
            &&& p.stacks.len() > 0 ==> q.stacks.push(q.curr_stack->0) == p.stacks
            &&& p.stacks.len() == 0 ==> q.curr_stack == Some(spare) && q.stacks.len() == 0
            &&& now.inner.is_thread && now.inner.ctx_ref == ctx_ref
            &&& p.curr_stack is Some ==> now.inner.stack == p.curr_stack
            &&& p.curr_stack is None ==> now.inner.stack == was.inner.stack
            &&& now.state == was.state
            &&& now.inner.preempt_pending == was.inner.preempt_pending
            &&& forall|t: int|
                #![trigger post.sys.tasks[t]]
                0 <= t < pre.sys.tasks.len() && t != curr ==> post.sys.tasks[t] == pre.sys.tasks[t]
            &&& task_switch::next_step(post.sys, curr as usize) == Next::Restore(ctx_ref)
            &&& q.ready == p.ready && q.prev == p.prev && q.idle == p.idle
        }),
        post.sys.current == pre.sys.current,
        post.sys.slots == pre.sys.slots,
{
    assert(pre.sys.current[cpu as int] is Some);
    let p = pre.processors[cpu as int]->0;
    if p.stacks.len() > 0 {
        assert(p.stacks.drop_last().push(p.stacks.last()) =~= p.stacks);
    }
}

/// A task that leaves the CPU of its own accord goes on from where it keeps its context, and its preemption
/// is pending no more where tasks can be preempted.
pub proof fn lemma_left_stack(pre: KernelView, cpu: usize, spare: usize, post: KernelView)
    requires
        pre.wf(),
        processor_ref::runs_on(pre, cpu),
        post == task_switch::left(pre, cpu, spare),
    ensures
        ({
            let (p, q) = (pre.processors[cpu as int]->0, post.processors[cpu as int]->0);
            let curr = pre.sys.current[cpu as int]->0 as int;
            let (was, now) = (pre.sys.tasks[curr], post.sys.tasks[curr]);
            &&& q.curr_stack is Some
            &&& q.curr_stack->0 == task_switch::new_context(pre, cpu, spare)
                + pre.sys.config.context_size
            &&& p.stacks.len() > 0 ==> q.stacks.push(q.curr_stack->0) == p.stacks
            &&& p.stacks.len() == 0 ==> q.curr_stack == Some(spare) && q.stacks.len() == 0
            &&& p.curr_stack is Some ==> now.inner.stack == p.curr_stack
            &&& p.curr_stack is None ==> now.inner.stack == was.inner.stack
            &&& now.inner.is_thread && now.inner.ctx_ref == was.inner.ctx_ref
            &&& pre.sys.config.preempt ==> !now.inner.preempt_pending
            &&& now.state == was.state
            &&& forall|t: int|
                #![trigger post.sys.tasks[t]]
                0 <= t < pre.sys.tasks.len() && t != curr ==> post.sys.tasks[t] == pre.sys.tasks[t]
        }),
        post.sys.current == pre.sys.current,
        post.sys.slots == pre.sys.slots,
{
    assert(pre.sys.current[cpu as int] is Some);
    let p = pre.processors[cpu as int]->0;
    if p.stacks.len() > 0 {
        assert(p.stacks.drop_last().push(p.stacks.last()) =~= p.stacks);
    }
}

/// A context on a fresh stack, without a task that is left: the stack in use before is free again.
pub proof fn lemma_fresh_context(pre: KernelView, cpu: usize, spare: usize, post: KernelView)
    requires
        pre.wf(),
        pre.has_processor(cpu),
        post == task_switch::on_free_stack(pre, cpu, spare),
    ensures
        ({
            let (p, q) = (pre.processors[cpu as int]->0, post.processors[cpu as int]->0);
            &&& q.curr_stack is Some
            &&& q.curr_stack->0 == task_switch::new_context(pre, cpu, spare)
                + pre.sys.config.context_size
            &&& p.stacks.len() > 0 ==> q.curr_stack == Some(p.stacks.last())
            &&& p.stacks.len() == 0 ==> q.curr_stack == Some(spare)
            &&& p.curr_stack is Some ==> q.stacks.len() > 0 && Some(q.stacks.last())
                == p.curr_stack
            &&& q.ready == p.ready && q.prev == p.prev
        }),
        post.sys == pre.sys,
{
}

/// When a CPU goes on with a task after a switch: the switch is finished, and a thread is one no more, so
/// that it is polled the next time; the stack that the CPU scheduled on is free again then.
pub proof fn lemma_goes_on_once(pre: KernelView, cpu: usize, post: KernelView)
    requires
        pre.wf(),
        processor_ref::runs_on(pre, cpu),
        pre.processors[cpu as int]->0.prev is Some,
        post == task_switch::resumed(pre, cpu),
    ensures
        ({
            let (p, q) = (pre.processors[cpu as int]->0, post.processors[cpu as int]->0);
            let curr = pre.sys.current[cpu as int]->0;
            let (was, now) = (pre.sys.tasks[curr as int], post.sys.tasks[curr as int]);
            let prev = post.sys.tasks[p.prev->0 as int];
            &&& !prev.on_cpu && !prev.state_locked
            &&& q.prev is None
            &&& !now.inner.is_thread
            &&& task_switch::next_step(post.sys, curr) == Next::Poll(curr)
            &&& !was.inner.is_thread ==> q.curr_stack == p.curr_stack && q.stacks == p.stacks
            &&& was.inner.is_thread ==> q.curr_stack is None
            &&& was.inner.is_thread && p.curr_stack is Some ==> q.stacks == p.stacks.push(
                p.curr_stack->0,
            )
            &&& now.state == was.state
            &&& now.inner.stack == was.inner.stack
            &&& q.ready == p.ready && q.exited == p.exited
            &&& forall|t: int|
                #![trigger post.sys.tasks[t]]
                0 <= t < pre.sys.tasks.len() && t != curr && t != p.prev->0 ==> post.sys.tasks[t]
                    == pre.sys.tasks[t]
        }),
        post.sys.current == pre.sys.current,
        post.sys.slots == pre.sys.slots,
{
    assert(pre.sys.current[cpu as int] is Some);
    assert(pre.processors[cpu as int] is Some);
}

/// When a switch is finished, the task that the CPU came from is on no CPU and its state can be changed
/// again; nothing else changes but that the switch is under way no more.
pub proof fn lemma_switch_done(pre: KernelView, cpu: usize, post: KernelView)
    requires
        pre.wf(),
        pre.has_processor(cpu),
        pre.processors[cpu as int]->0.prev is Some,
        post == processor_ref::switch_finished(pre, cpu),
    ensures
        ({
            let (p, q) = (pre.processors[cpu as int]->0, post.processors[cpu as int]->0);
            let (was, now) = (
                pre.sys.tasks[p.prev->0 as int],
                post.sys.tasks[p.prev->0 as int],
            );
            &&& !now.on_cpu && !now.state_locked
            &&& now.state == was.state && now.inner == was.inner && now.cpumask == was.cpumask
            &&& q.prev is None
            &&& q.ready == p.ready && q.exited == p.exited && q.stacks == p.stacks
            &&& q.curr_stack == p.curr_stack && q.gc_waiters == p.gc_waiters
            &&& forall|t: int|
                #![trigger post.sys.tasks[t]]
                0 <= t < pre.sys.tasks.len() && t != p.prev->0 ==> post.sys.tasks[t]
                    == pre.sys.tasks[t]
        }),
        post.sys.current == pre.sys.current,
        post.sys.slots == pre.sys.slots,
        post.joins == pre.joins,
{
    assert(pre.processors[cpu as int] is Some);
}

/// A polled coroutine that had a stack of its own gives it back: the CPU runs on it from then on.
pub proof fn lemma_stack_given_back(pre: KernelView, cpu: usize, post: KernelView)
    requires
        pre.wf(),
        processor_ref::runs_on(pre, cpu),
        post == task_switch::stack_returned(pre, cpu),
    ensures
        ({
            let (p, q) = (pre.processors[cpu as int]->0, post.processors[cpu as int]->0);
            let curr = pre.sys.current[cpu as int]->0;
            let (was, now) = (pre.sys.tasks[curr as int], post.sys.tasks[curr as int]);
            &&& now.inner.stack is None
            &&& was.inner.stack is None ==> post == pre
            &&& was.inner.stack is Some ==> q.curr_stack == was.inner.stack
            &&& was.inner.stack is Some && p.curr_stack is Some ==> q.stacks == p.stacks.push(
                p.curr_stack->0,
            )
            &&& now.inner.is_thread == was.inner.is_thread && now.state == was.state
            &&& q.ready == p.ready
        }),
        post.sys.current == pre.sys.current,
{
    assert(pre.sys.current[cpu as int] is Some);
}

} // verus!
