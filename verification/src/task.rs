//! Tasks.
use crate::config::Config;
use crate::cpumask::CpuMask;
use crate::kernel::{lemma_sys_changed, Kernel};
use crate::sched::{countable, BaseScheduler};
use crate::processor_ref;
use crate::processor_ref::current_processor;
use crate::system::{AxTaskRef, System};
use vstd::prelude::*;

verus! {

/// The possible states of a task.
///
/// A task that waits for a CPU is `Runable`. The task on a CPU is `Running` under the shared run
/// queue, and stays `Runable` under a processor of its own. `Blocking` is a task on its way to
/// `Blocked`.
#[derive(Clone, Copy, Debug, PartialEq, Eq, Structural)]
pub enum TaskState {
    Runable,
    Running,
    Blocking,
    Blocked,
    Exited,
}

impl TaskState {
    /// The code that the state is stored as. `Running` and `Blocking` have none: they are for moments in
    /// which nobody else reads the state.
    pub open spec fn stored(self) -> Option<u8> {
        match self {
            TaskState::Runable => Some(1),
            TaskState::Blocked => Some(2),
            TaskState::Exited => Some(3),
            _ => None,
        }
    }

    /// The code that the state is stored as, if it has one.
    pub fn code(self) -> (r: Option<u8>)
        ensures
            r == self.stored(),
    {
        match self {
            TaskState::Runable => Some(1),
            TaskState::Blocked => Some(2),
            TaskState::Exited => Some(3),
            _ => None,
        }
    }

    /// The state that a stored code stands for.
    pub fn from(state: u8) -> (r: Self)
        requires
            1 <= state <= 3,
        ensures
            r.stored() == Some(state),
            state == 1 ==> r == TaskState::Runable,
            state == 2 ==> r == TaskState::Blocked,
            state == 3 ==> r == TaskState::Exited,
    {
        match state {
            1 => TaskState::Runable,
            2 => TaskState::Blocked,
            _ => TaskState::Exited,
        }
    }
}

/// A stored state can be read back: a code from 1 to 3 stands for one state, and every state with a code
/// has a code of its own.
pub proof fn lemma_stored(s: TaskState, t: TaskState)
    ensures
        s.stored() is Some ==> 1 <= s.stored()->0 <= 3,
        s.stored() is Some && s.stored() == t.stored() ==> s == t,
        s != TaskState::Running && s != TaskState::Blocking ==> s.stored() is Some,
{
}

/// A saved context that has not run yet: where the stack and the thread-local storage are. It starts
/// at the task entry.
#[derive(Clone, Copy, Debug, PartialEq, Eq, Structural)]
pub struct InitContext {
    pub stack_pointer: usize,
    pub tls: usize,
}

/// What a task is made of, apart from its scheduling state.
#[derive(Debug)]
pub struct TaskInner {
    pub name: String,
    /// The task that runs when nothing else can.
    pub is_idle: bool,
    /// The task that the kernel started with.
    pub is_init: bool,
    /// The task leads a process.
    pub is_leader: bool,
    /// The task was left in the middle: it goes on from its saved context, and is no thread from then on.
    pub is_thread: bool,
    /// The task has a function to start with.
    pub has_entry: bool,
    pub process_id: u64,
    /// The root of the address space; 0 for none.
    pub page_table_token: usize,
    pub stack_size: usize,
    pub kernel_stack_top: Option<usize>,
    pub context: Option<InitContext>,
    pub tls_ptr: usize,
    /// When time accounting started.
    pub time_origin: usize,
    pub exit_code: i32,
    /// Wake-ups that found the task running.
    pub wakeup_cnt: usize,
    /// How often preemption was disabled without being enabled again.
    pub preempt_disable_count: usize,
    /// The task should be preempted as soon as that is possible.
    pub preempt_pending: bool,
    /// The CPUs that the shared run queue may run the task on.
    pub cpu_set: CpuMask,
    /// The address of the saved context of a task that was left in the middle.
    pub ctx_ref: usize,
    /// The top of the stack from a pool that the task has been running on since it was left in the middle.
    pub stack: Option<usize>,
}

/// A task.
#[derive(Debug)]
pub struct ScheduleTask {
    pub inner: TaskInner,
    pub state: TaskState,
    /// A CPU is running the task, or has not finished switching away from it.
    pub on_cpu: bool,
    /// The state is locked while a CPU switches away from the task.
    pub state_locked: bool,
    /// The processors that the task may run on.
    pub cpumask: CpuMask,
}

impl ScheduleTask {
    /// A runnable task.
    pub(crate) fn new(inner: TaskInner, on_cpu: bool, cpumask: CpuMask) -> (r: Self)
        ensures
            r == (ScheduleTask {
                inner,
                state: TaskState::Runable,
                on_cpu,
                state_locked: false,
                cpumask,
            }),
    {
        ScheduleTask { inner, state: TaskState::Runable, on_cpu, state_locked: false, cpumask }
    }

    /// The state of the task.
    pub fn state(&self) -> (r: TaskState)
        ensures
            r == self.state,
    {
        self.state
    }

    /// Moves the task from `current_state` to `new_state`.
    ///
    /// Returns `true` if it was in `current_state`; otherwise nothing changes.
    pub fn transition_state(&mut self, current_state: TaskState, new_state: TaskState) -> (r: bool)
        ensures
            r == (old(self).state == current_state),
            *final(self) == if r {
                ScheduleTask { state: new_state, ..*old(self) }
            } else {
                *old(self)
            },
    {
        if self.state == current_state {
            self.state = new_state;
            true
        } else {
            false
        }
    }

    /// Puts the task into a state.
    pub fn set_state(&mut self, state: TaskState)
        ensures
            *final(self) == (ScheduleTask { state, ..*old(self) }),
    {
        self.state = state;
    }

    /// Whether a CPU is running the task or has not finished switching away from it.
    pub fn on_cpu(&self) -> (r: bool)
        ensures
            r == self.on_cpu,
    {
        self.on_cpu
    }

    /// Says whether a CPU is running the task.
    pub fn set_on_cpu(&mut self, on_cpu: bool)
        ensures
            *final(self) == (ScheduleTask { on_cpu, ..*old(self) }),
    {
        self.on_cpu = on_cpu;
    }

    /// Whether the task has exited.
    pub fn is_exited(&self) -> (r: bool)
        ensures
            r == (self.state == TaskState::Exited),
    {
        self.state == TaskState::Exited
    }

    /// Whether the task can run.
    pub fn is_runable(&self) -> (r: bool)
        ensures
            r == (self.state == TaskState::Runable),
    {
        self.state == TaskState::Runable
    }

    /// Whether the task is on its way to be blocked.
    pub fn is_blocking(&self) -> (r: bool)
        ensures
            r == (self.state == TaskState::Blocking),
    {
        self.state == TaskState::Blocking
    }

    /// Whether the task is blocked.
    pub fn is_blocked(&self) -> (r: bool)
        ensures
            r == (self.state == TaskState::Blocked),
    {
        self.state == TaskState::Blocked
    }

    /// The processors that the task may run on.
    pub fn cpumask(&self) -> (r: CpuMask)
        ensures
            r == self.cpumask,
    {
        self.cpumask
    }

    /// Says which processors the task may run on.
    pub fn set_cpumask(&mut self, cpumask: CpuMask)
        ensures
            *final(self) == (ScheduleTask { cpumask, ..*old(self) }),
    {
        self.cpumask = cpumask;
    }
}

/// What the machine provides for a new task.
#[derive(Clone, Copy, Debug, PartialEq, Eq, Structural)]
pub struct Allocation {
    /// The top of the kernel stack.
    pub stack_top: usize,
    /// The thread-local storage.
    pub tls_ptr: usize,
    /// The time, in nanoseconds.
    pub now: usize,
}

/// What a new task is asked to be.
#[derive(Debug)]
pub struct TaskRequest {
    pub name: String,
    pub stack_size: usize,
    /// The process that the task belongs to; used where tasks belong to processes.
    pub process_id: u64,
    /// The root of the address space, 0 for none; used where tasks belong to processes.
    pub page_table_token: usize,
}

/// The machine can provide `alloc` for a task: the trap frame, where there is one, fits below the top
/// of the stack.
pub open spec fn fits(config: Config, alloc: Allocation) -> bool {
    config.monolithic ==> config.trap_frame_size <= alloc.stack_top
}

/// A new task. It starts below the trap frame at the top of its stack, where tasks have trap frames.
pub open spec fn fresh_task(
    config: Config,
    cpus: usize,
    name: String,
    stack_size: usize,
    process_id: u64,
    page_table_token: usize,
    alloc: Allocation,
) -> ScheduleTask {
    let tls = if config.tls {
        alloc.tls_ptr
    } else {
        0
    };
    ScheduleTask {
        inner: TaskInner {
            name,
            is_idle: name@ == "idle"@,
            is_init: false,
            is_leader: false,
            is_thread: false,
            has_entry: true,
            process_id: if config.monolithic {
                process_id
            } else {
                0
            },
            page_table_token: if config.monolithic {
                page_table_token
            } else {
                0
            },
            stack_size,
            kernel_stack_top: Some(alloc.stack_top),
            context: Some(
                InitContext {
                    stack_pointer: if config.monolithic {
                        (alloc.stack_top - config.trap_frame_size) as usize
                    } else {
                        alloc.stack_top
                    },
                    tls,
                },
            ),
            tls_ptr: tls,
            time_origin: if config.monolithic {
                alloc.now
            } else {
                0
            },
            exit_code: 0,
            wakeup_cnt: 0,
            preempt_disable_count: 0,
            preempt_pending: false,
            cpu_set: CpuMask::first(cpus),
            ctx_ref: 0,
            stack: None,
        },
        state: TaskState::Runable,
        on_cpu: false,
        state_locked: false,
        cpumask: CpuMask::first(cpus),
    }
}

/// The task that a CPU starts with. It runs on the stack that the CPU was started on.
pub open spec fn fresh_init_task(
    config: Config,
    cpus: usize,
    name: String,
    tls_ptr: usize,
) -> ScheduleTask {
    ScheduleTask {
        inner: TaskInner {
            name,
            is_idle: name@ == "idle"@,
            is_init: true,
            is_leader: false,
            is_thread: false,
            has_entry: false,
            process_id: 0,
            page_table_token: 0,
            stack_size: 0,
            kernel_stack_top: None,
            context: None,
            tls_ptr: if config.tls {
                tls_ptr
            } else {
                0
            },
            time_origin: 0,
            exit_code: 0,
            wakeup_cnt: 0,
            preempt_disable_count: 0,
            preempt_pending: false,
            cpu_set: CpuMask::first(cpus),
            ctx_ref: 0,
            stack: None,
        },
        state: TaskState::Runable,
        on_cpu: true,
        state_locked: false,
        cpumask: CpuMask::first(cpus),
    }
}

/// Creates a new task. It can run on all CPUs, and others can wait for its exit.
pub fn new_task<S: BaseScheduler>(k: &mut Kernel<S>, request: TaskRequest, alloc: Allocation) -> (r:
    AxTaskRef)
    requires
        old(k).wf(),
        countable(old(k)@.sys.tasks.len() + 1),
        fits(old(k)@.sys.config, alloc),
    ensures
        final(k).wf(),
        r == old(k)@.sys.tasks.len(),
        final(k)@.sys.valid(r),
        final(k)@ == old(k)@.with_new_task(
            fresh_task(
                old(k)@.sys.config,
                old(k)@.processors.len() as usize,
                request.name,
                request.stack_size,
                request.process_id,
                request.page_table_token,
                alloc,
            ),
            S::initial(r),
        ),
{
    let config = k.system.config;
    assert(k.processors@.len() == k@.processors.len());
    let cpus = k.processors.len();
    let is_idle = request.name == "idle".to_owned();
    let tls: usize = if config.tls {
        alloc.tls_ptr
    } else {
        0
    };
    let stack_pointer = if config.monolithic {
        alloc.stack_top - config.trap_frame_size
    } else {
        alloc.stack_top
    };
    let inner = TaskInner {
        name: request.name,
        is_idle,
        is_init: false,
        is_leader: false,
        is_thread: false,
        has_entry: true,
        process_id: if config.monolithic {
            request.process_id
        } else {
            0
        },
        page_table_token: if config.monolithic {
            request.page_table_token
        } else {
            0
        },
        stack_size: request.stack_size,
        kernel_stack_top: Some(alloc.stack_top),
        context: Some(InitContext { stack_pointer, tls }),
        tls_ptr: tls,
        time_origin: if config.monolithic {
            alloc.now
        } else {
            0
        },
        exit_code: 0,
        wakeup_cnt: 0,
        preempt_disable_count: 0,
        preempt_pending: false,
        cpu_set: CpuMask::full(cpus),
        ctx_ref: 0,
        stack: None,
    };
    k.add_new_task(ScheduleTask::new(inner, false, CpuMask::full(cpus)))
}

/// Creates the task that a CPU starts with; it is on the CPU already.
pub fn new_init_task<S: BaseScheduler>(k: &mut Kernel<S>, name: String, tls_ptr: usize) -> (r:
    AxTaskRef)
    requires
        old(k).wf(),
        countable(old(k)@.sys.tasks.len() + 1),
    ensures
        final(k).wf(),
        r == old(k)@.sys.tasks.len(),
        final(k)@.sys.valid(r),
        final(k)@ == old(k)@.with_new_task(
            fresh_init_task(
                old(k)@.sys.config,
                old(k)@.processors.len() as usize,
                name,
                tls_ptr,
            ),
            S::initial(r),
        ),
{
    let config = k.system.config;
    assert(k.processors@.len() == k@.processors.len());
    let cpus = k.processors.len();
    let is_idle = name == "idle".to_owned();
    let inner = TaskInner {
        name,
        is_idle,
        is_init: true,
        is_leader: false,
        is_thread: false,
        has_entry: false,
        process_id: 0,
        page_table_token: 0,
        stack_size: 0,
        kernel_stack_top: None,
        context: None,
        tls_ptr: if config.tls {
            tls_ptr
        } else {
            0
        },
        time_origin: 0,
        exit_code: 0,
        wakeup_cnt: 0,
        preempt_disable_count: 0,
        preempt_pending: false,
        cpu_set: CpuMask::full(cpus),
        ctx_ref: 0,
        stack: None,
    };
    k.add_new_task(ScheduleTask::new(inner, true, CpuMask::full(cpus)))
}

/// The task `t` is a new kernel task.
pub open spec fn is_kernel_task(
    t: ScheduleTask,
    config: Config,
    cpus: usize,
    name: Seq<char>,
    stack_size: usize,
    alloc: Allocation,
) -> bool {
    &&& t.inner.name@ == name
    &&& t == fresh_task(
        config,
        cpus,
        t.inner.name,
        stack_size,
        config.kernel_process_id,
        0,
        alloc,
    )
}

/// The task `t` is the one that a CPU starts with. It belongs to the kernel.
pub open spec fn is_boot_task(
    t: ScheduleTask,
    config: Config,
    cpus: usize,
    name: Seq<char>,
    tls_ptr: usize,
) -> bool {
    let fresh = fresh_init_task(config, cpus, t.inner.name, tls_ptr);
    &&& t.inner.name@ == name
    &&& t == (ScheduleTask {
        inner: TaskInner {
            process_id: if config.monolithic {
                config.kernel_process_id
            } else {
                0
            },
            ..fresh.inner
        },
        ..fresh
    })
}

/// Creates a task of the kernel itself.
pub(crate) fn new_kernel_task<S: BaseScheduler>(
    k: &mut Kernel<S>,
    name: &str,
    stack_size: usize,
    alloc: Allocation,
) -> (r: AxTaskRef)
    requires
        old(k).wf(),
        countable(old(k)@.sys.tasks.len() + 1),
        fits(old(k)@.sys.config, alloc),
    ensures
        final(k).wf(),
        r == old(k)@.sys.tasks.len(),
        final(k)@.sys.valid(r),
        final(k)@ == old(k)@.with_new_task(final(k)@.sys.tasks[r as int], S::initial(r)),
        is_kernel_task(
            final(k)@.sys.tasks[r as int],
            old(k)@.sys.config,
            old(k)@.processors.len() as usize,
            name@,
            stack_size,
            alloc,
        ),
{
    let process_id = k.system.config.kernel_process_id;
    new_task(
        k,
        TaskRequest { name: name.to_owned(), stack_size, process_id, page_table_token: 0 },
        alloc,
    )
}

/// Creates the task that a CPU starts with, as a task of the kernel.
pub(crate) fn new_boot_task<S: BaseScheduler>(k: &mut Kernel<S>, name: &str, tls_ptr: usize) -> (r:
    AxTaskRef)
    requires
        old(k).wf(),
        countable(old(k)@.sys.tasks.len() + 1),
    ensures
        final(k).wf(),
        r == old(k)@.sys.tasks.len(),
        final(k)@.sys.valid(r),
        final(k)@ == old(k)@.with_new_task(final(k)@.sys.tasks[r as int], S::initial(r)),
        is_boot_task(
            final(k)@.sys.tasks[r as int],
            old(k)@.sys.config,
            old(k)@.processors.len() as usize,
            name@,
            tls_ptr,
        ),
{
    let ghost pre = k@;
    let r = new_init_task(k, name.to_owned(), tls_ptr);
    let ghost made = k@;
    if k.system.config.monolithic {
        let process_id = k.system.config.kernel_process_id;
        k.system.tasks[r].inner.process_id = process_id;
        assert(k@.sys.tasks =~= pre.sys.tasks.push(k@.sys.tasks[r as int]));
        proof {
            lemma_sys_changed(made, k@.sys);
        }
    }
    r
}

/// The task that a CPU runs.
#[derive(Debug, PartialEq, Eq, Structural)]
pub struct CurrentTask(pub AxTaskRef);

impl CurrentTask {
    /// The task that CPU `cpu` runs, if it runs one yet.
    pub fn try_get<S: BaseScheduler>(sys: &System<S>, cpu: usize) -> (r: Option<Self>)
        requires
            cpu < sys@.current.len(),
        ensures
            r == match sys@.current[cpu as int] {
                Some(task) => Some(CurrentTask(task)),
                None => None,
            },
    {
        match sys.current[cpu] {
            Some(task) => Some(CurrentTask(task)),
            None => None,
        }
    }

    /// The task that CPU `cpu` runs.
    pub fn get<S: BaseScheduler>(sys: &System<S>, cpu: usize) -> (r: Self)
        requires
            sys@.running(cpu),
        ensures
            r.0 == sys@.curr(cpu),
    {
        Self::try_get(sys, cpu).unwrap()
    }

    /// The task.
    pub fn as_task_ref(&self) -> (r: &AxTaskRef)
        ensures
            *r == self.0,
    {
        &self.0
    }

    /// Another reference to the task.
    pub fn clone(&self) -> (r: AxTaskRef)
        ensures
            r == self.0,
    {
        self.0
    }

    /// Whether this is the task `other`.
    pub fn ptr_eq(&self, other: &AxTaskRef) -> (r: bool)
        ensures
            r == (self.0 == *other),
    {
        self.0 == *other
    }

    /// Lets CPU `cpu` run its first task. Where tasks have thread-local storage, hands out the thread
    /// pointer that is to be written.
    pub(crate) fn init_current<S: BaseScheduler>(
        sys: &mut System<S>,
        cpu: usize,
        init_task: AxTaskRef,
    ) -> (tls: Option<usize>)
        requires
            old(sys).wf(),
            old(sys)@.valid(init_task),
            cpu < old(sys)@.current.len(),
        ensures
            final(sys).wf(),
            old(sys)@.same_frame(final(sys)@),
            final(sys)@ == old(sys)@.with_current(cpu, init_task),
            tls == if old(sys)@.config.tls {
                Some(old(sys)@.inner(init_task).tls_ptr)
            } else {
                None
            },
    {
        let tls = if sys.config.tls {
            Some(sys.tasks[init_task].inner.tls_ptr)
        } else {
            None
        };
        sys.set_current(cpu, init_task);
        tls
    }

    /// Lets CPU `cpu`, which runs the task `prev`, run the task `next`.
    pub(crate) fn set_current<S: BaseScheduler>(
        prev: Self,
        sys: &mut System<S>,
        cpu: usize,
        next: AxTaskRef,
    )
        requires
            old(sys).wf(),
            old(sys)@.valid(next),
            old(sys)@.running(cpu),
            prev.0 == old(sys)@.curr(cpu),
        ensures
            final(sys).wf(),
            old(sys)@.same_frame(final(sys)@),
            final(sys)@ == old(sys)@.with_current(cpu, next),
    {
        sys.set_current(cpu, next);
    }
}

/// What a task does first when it gets a CPU for the first time.
#[derive(Clone, Copy, Debug, PartialEq, Eq, Structural)]
pub enum TaskStart {
    /// It has nothing to do and exits.
    Nothing,
    /// It runs the function that it was made for and exits with the code 0.
    Run,
    /// It goes over to the program of its process, with this kernel stack.
    IntoUser(usize),
}

/// What the task `t` does first: kernel tasks run their function, other tasks their program.
pub open spec fn first_step(config: Config, t: TaskInner) -> TaskStart {
    if !t.has_entry {
        TaskStart::Nothing
    } else if config.monolithic && t.process_id != config.kernel_process_id {
        TaskStart::IntoUser(t.kernel_stack_top->0)
    } else {
        TaskStart::Run
    }
}

/// Where a new task starts on CPU `cpu`: finishes the switch to it, then says what it does.
pub fn task_entry<S: BaseScheduler>(k: &mut Kernel<S>, cpu: usize) -> (r: TaskStart)
    requires
        old(k).wf(),
        processor_ref::runs_on(old(k)@, cpu),
        old(k)@.proc(cpu).prev is Some,
        first_step(old(k)@.sys.config, old(k)@.sys.inner(old(k)@.sys.curr(cpu))) is IntoUser
            ==> old(k)@.sys.inner(old(k)@.sys.curr(cpu)).kernel_stack_top is Some,
    ensures
        final(k).wf(),
        final(k)@ == processor_ref::switch_finished(old(k)@, cpu),
        r == first_step(old(k)@.sys.config, old(k)@.sys.inner(old(k)@.sys.curr(cpu))),
{
    current_processor(k, cpu).switch_post(k);
    let curr = k.system.curr(cpu);
    let t = &k.system.tasks[curr].inner;
    if !t.has_entry {
        TaskStart::Nothing
    } else if k.system.config.monolithic && t.process_id != k.system.config.kernel_process_id {
        TaskStart::IntoUser(t.kernel_stack_top.unwrap())
    } else {
        TaskStart::Run
    }
}

} // verus!
