use axtask::config::Config;
use axtask::cpumask::{CpuMask, MAX_CPUS};
use axtask::kernel::Kernel;
use axtask::processor_ref;
use axtask::sched::fifo::Fifo;
use axtask::schedule;
use axtask::system::{Switch, Switched};
use axtask::task::{
    new_init_task, new_task, task_entry, Allocation, CurrentTask, InitContext, TaskRequest, TaskStart,
    TaskState,
};

/// The top of the stack that a processor starts with, where tasks are coroutines.
const FREE: usize = 0x5000;

fn config() -> Config {
    Config {
        irq: false,
        preempt: false,
        smp: false,
        monolithic: false,
        tls: false,
        coroutine: false,
        kernel_process_id: 1,
        task_stack_size: 0x4000,
        trap_frame_size: 0x100,
        context_size: 0x80,
    }
}

fn stack(stack_top: usize) -> Allocation {
    Allocation { stack_top, tls_ptr: 0x77, now: 1234 }
}

fn request(name: &str, process_id: u64) -> TaskRequest {
    TaskRequest {
        name: String::from(name),
        stack_size: 0x2000,
        process_id,
        page_table_token: 0x9000,
    }
}

#[test]
fn codes_stand_for_states() {
    assert_eq!(TaskState::from(1), TaskState::Runable);
    assert_eq!(TaskState::from(2), TaskState::Blocked);
    assert_eq!(TaskState::from(3), TaskState::Exited);
}

#[test]
fn masks_hold_cpus() {
    assert!(CpuMask::new().is_empty());
    let mask = CpuMask::full(3);
    assert!(!mask.is_empty());
    assert!(mask.get(0) && mask.get(1) && mask.get(2));
    assert!(!mask.get(3) && !mask.get(63) && !mask.get(64));
    assert_eq!(mask.bits, 7);
    assert_eq!(CpuMask::full(MAX_CPUS).bits, u64::MAX);
}

#[test]
fn a_task_is_made_on_a_plain_kernel() {
    let mut k = Kernel::<Fifo>::new(config(), 2);
    let task = new_task(&mut k, request("worker", 5), stack(0x8000));
    assert_eq!(task, 0);
    let t = &k.system.tasks[task];
    assert_eq!(t.inner.name, "worker");
    assert_eq!(t.state(), TaskState::Runable);
    assert!(t.is_runable() && !t.is_exited() && !t.is_blocked() && !t.is_blocking());
    assert!(!t.on_cpu());
    assert_eq!(t.cpumask(), CpuMask::full(2));
    assert_eq!(t.inner.stack_size, 0x2000);
    assert_eq!(t.inner.context, Some(InitContext { stack_pointer: 0x8000, tls: 0 }));
    assert_eq!(t.inner.process_id, 0);
    assert_eq!(t.inner.page_table_token, 0);
    assert!(!t.inner.is_idle && !t.inner.is_init);
    assert!(k.wait_for_task_exits.contains_key(&task));
}

#[test]
fn a_task_is_made_below_its_trap_frame() {
    let mut c = config();
    c.monolithic = true;
    c.tls = true;
    let mut k = Kernel::<Fifo>::new(c, 1);
    let task = new_task(&mut k, request("app", 5), stack(0x8000));
    let t = &k.system.tasks[task];
    assert_eq!(t.inner.context, Some(InitContext { stack_pointer: 0x7f00, tls: 0x77 }));
    assert_eq!(t.inner.kernel_stack_top, Some(0x8000));
    assert_eq!(t.inner.process_id, 5);
    assert_eq!(t.inner.page_table_token, 0x9000);
    assert_eq!(t.inner.time_origin, 1234);
}

#[test]
fn an_idle_task_is_known_by_its_name() {
    let mut k = Kernel::<Fifo>::new(config(), 1);
    let idle = new_task(&mut k, request("idle", 0), stack(0x8000));
    let other = new_task(&mut k, request("idler", 0), stack(0x9000));
    assert!(k.system.tasks[idle].inner.is_idle);
    assert!(!k.system.tasks[other].inner.is_idle);
}

#[test]
fn a_first_task_is_on_its_cpu() {
    let mut k = Kernel::<Fifo>::new(config(), 1);
    let task = new_init_task(&mut k, String::from("main"), 0x55);
    let t = &k.system.tasks[task];
    assert!(t.on_cpu());
    assert!(t.inner.is_init && !t.inner.has_entry);
    assert_eq!(t.inner.context, None);
    assert_eq!(t.inner.tls_ptr, 0);
}

#[test]
fn a_state_moves_only_from_where_it_is() {
    let mut k = Kernel::<Fifo>::new(config(), 1);
    let task = new_task(&mut k, request("t", 0), stack(0x8000));
    let t = &mut k.system.tasks[task];
    assert!(!t.transition_state(TaskState::Blocked, TaskState::Exited));
    assert_eq!(t.state(), TaskState::Runable);
    assert!(t.transition_state(TaskState::Runable, TaskState::Blocked));
    assert_eq!(t.state(), TaskState::Blocked);
    t.set_state(TaskState::Blocking);
    assert!(t.is_blocking());
    t.set_on_cpu(true);
    assert!(t.on_cpu());
    t.set_cpumask(CpuMask { bits: 2 });
    assert_eq!(t.cpumask().bits, 2);
}

#[test]
fn a_cpu_knows_its_task() {
    let mut k = Kernel::<Fifo>::new(config(), 2);
    assert!(CurrentTask::try_get(&k.system, 0).is_none());
    processor_ref::init(&mut k, 0, stack(0x8000), stack(0x9000), 0, FREE);
    let current = CurrentTask::get(&k.system, 0);
    assert_eq!(*current.as_task_ref(), 1);
    assert_eq!(current.clone(), 1);
    assert!(current.ptr_eq(&1));
    assert!(!current.ptr_eq(&0));
    assert!(CurrentTask::try_get(&k.system, 1).is_none());
}

/// A kernel whose CPU has just switched from its first task to the task `name`.
fn switched_to(c: Config, name: &str, process_id: u64) -> (Kernel<Fifo>, usize) {
    let mut k = Kernel::<Fifo>::new(c, 1);
    processor_ref::init(&mut k, 0, stack(0x8000), stack(0x9000), 0, FREE);
    let task = new_task(&mut k, request(name, process_id), stack(0xa000));
    // The task that drops exited tasks comes first.
    let processor = processor_ref::current_processor(&k, 0);
    processor.add_task(&mut k, task);
    let _ = schedule::schedule(&mut k, 0);
    processor.switch_post(&mut k);
    let work = schedule::schedule(&mut k, 0);
    assert!(matches!(work, Switched::To(Switch { prev: 2, .. })));
    (k, task)
}

#[test]
fn a_plain_task_starts_with_its_function() {
    let (mut k, task) = switched_to(config(), "t", 5);
    assert!(k.system.tasks[2].state_locked);
    assert_eq!(k.system.current[0], Some(task));
    assert_eq!(task_entry(&mut k, 0), TaskStart::Run);
    assert!(!k.system.tasks[2].state_locked);
}

#[test]
fn a_user_task_starts_with_its_program() {
    let mut c = config();
    c.monolithic = true;
    let mut k = Kernel::<Fifo>::new(c, 1);
    processor_ref::init(&mut k, 0, stack(0x8000), stack(0x9000), 0, FREE);
    let user = new_task(&mut k, request("user", 5), stack(0xa000));
    let kernel = new_task(&mut k, request("kernel", 1), stack(0xb000));
    k.system.current[0] = Some(user);
    k.processors[0].as_mut().unwrap().prev_ctx_save.0 = Some(1);
    assert_eq!(task_entry(&mut k, 0), TaskStart::IntoUser(0xa000));
    k.system.current[0] = Some(kernel);
    k.processors[0].as_mut().unwrap().prev_ctx_save.0 = Some(1);
    assert_eq!(task_entry(&mut k, 0), TaskStart::Run);
    k.system.current[0] = Some(1);
    k.processors[0].as_mut().unwrap().prev_ctx_save.0 = Some(kernel);
    assert_eq!(task_entry(&mut k, 0), TaskStart::Nothing);
}

#[test]
fn a_stored_state_is_read_back() {
    for state in [TaskState::Runable, TaskState::Blocked, TaskState::Exited] {
        assert_eq!(TaskState::from(state.code().unwrap()), state);
    }
    for code in [1, 2, 3] {
        assert_eq!(TaskState::from(code).code(), Some(code));
    }
    assert_eq!(TaskState::Running.code(), None);
    assert_eq!(TaskState::Blocking.code(), None);
}
