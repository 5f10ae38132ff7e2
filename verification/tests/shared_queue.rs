use axtask::block;
use axtask::config::Config;
use axtask::cpumask::CpuMask;
use axtask::exit::{gc_pass, get_wait_for_exit_queue, Exit};
use axtask::kernel::Kernel;
use axtask::run_queue;
use axtask::run_queue::Alarm;
use axtask::sched::fair::Fair;
use axtask::sched::fifo::Fifo;
use axtask::sched::round_robin::RoundRobin;
use axtask::sched::BaseScheduler;
use axtask::system::{Switch, Switched};
use axtask::task::{new_task, Allocation, TaskRequest, TaskState};
use axtask::wait_queue::{TimedWaiting, WaitQueue, Waiting};
use std::collections::VecDeque;

const IDLE: usize = 0;
const MAIN: usize = 1;
const GC: usize = 2;

fn config() -> Config {
    Config {
        irq: true,
        preempt: false,
        smp: false,
        monolithic: false,
        tls: false,
        coroutine: false,
        kernel_process_id: 1,
        task_stack_size: 0x4000,
        trap_frame_size: 0x100,
        context_size: 0x80,
    }
}

fn stack(stack_top: usize) -> Allocation {
    Allocation { stack_top, tls_ptr: 0, now: 0 }
}

/// A kernel whose first CPU takes part in the shared run queue.
fn kernel<S: BaseScheduler>(c: Config, cpus: usize) -> Kernel<S> {
    let mut k = Kernel::<S>::new(c, cpus);
    run_queue::init(&mut k, 0, stack(0x8000), stack(0x9000), 0);
    k
}

fn add<S: BaseScheduler>(k: &mut Kernel<S>, name: &str) -> usize {
    let task = new_task(
        k,
        TaskRequest {
            name: String::from(name),
            stack_size: 0x2000,
            process_id: 1,
            page_table_token: 0,
        },
        stack(0xa000),
    );
    run_queue::add_task(&mut k.system, task);
    task
}

fn to(prev: usize, next: usize) -> Switched {
    Switched::To(Switch { prev, next, page_table: None, account_time: false })
}

fn state<S: BaseScheduler>(k: &Kernel<S>, task: usize) -> TaskState {
    k.system.tasks[task].state()
}

#[test]
fn three_tasks_to_start_with() {
    let k = kernel::<Fifo>(config(), 1);
    assert_eq!(k.system.current, vec![Some(MAIN)]);
    assert_eq!(k.system.idle_tasks, vec![Some(IDLE)]);
    assert_eq!(state(&k, MAIN), TaskState::Running);
    assert_eq!(state(&k, GC), TaskState::Runable);
    assert!(k.system.tasks[IDLE].inner.is_idle);
    assert_eq!(k.system.tasks[IDLE].inner.stack_size, run_queue::IDLE_TASK_STACK_SIZE);
    assert_eq!(k.system.tasks[GC].inner.name, "gc");
    assert_eq!(k.system.tasks[GC].inner.stack_size, 0x4000);
}

#[test]
fn another_cpu_runs_its_idle_task() {
    let mut c = config();
    c.tls = true;
    let mut k = Kernel::<Fifo>::new(c, 2);
    assert_eq!(run_queue::init(&mut k, 0, stack(0x8000), stack(0x9000), 0x11), Some(0x11));
    assert_eq!(run_queue::init_secondary(&mut k, 1, 0x22), Some(0x22));
    assert_eq!(k.system.current, vec![Some(MAIN), Some(3)]);
    assert_eq!(k.system.idle_tasks, vec![Some(IDLE), Some(3)]);
    assert!(k.system.tasks[3].inner.is_idle);
    // It takes the task that waits, and is not queued itself.
    assert_eq!(run_queue::yield_current(&mut k.system, 1), to(3, GC));
    assert_eq!(run_queue::yield_current(&mut k.system, 0), Switched::Stay);
    assert_eq!(k.system.current, vec![Some(MAIN), Some(GC)]);
}

#[test]
fn tasks_take_turns() {
    let mut k = kernel::<Fifo>(config(), 1);
    let task = add(&mut k, "t");
    assert_eq!(run_queue::yield_current(&mut k.system, 0), to(MAIN, GC));
    assert_eq!(state(&k, GC), TaskState::Running);
    assert_eq!(state(&k, MAIN), TaskState::Runable);
    assert_eq!(run_queue::yield_current(&mut k.system, 0), to(GC, task));
    assert_eq!(run_queue::yield_current(&mut k.system, 0), to(task, MAIN));
}

#[test]
fn a_lonely_task_goes_on() {
    let mut k = kernel::<Fifo>(config(), 1);
    assert_eq!(run_queue::yield_current(&mut k.system, 0), to(MAIN, GC));
    assert_eq!(run_queue::block_current(&mut k.system, 0), to(GC, MAIN));
    assert_eq!(run_queue::yield_current(&mut k.system, 0), Switched::Stay);
    assert_eq!(state(&k, MAIN), TaskState::Running);
}

#[test]
fn the_idle_task_fills_in() {
    let mut k = kernel::<Fifo>(config(), 1);
    let _ = run_queue::yield_current(&mut k.system, 0);
    let _ = run_queue::block_current(&mut k.system, 0);
    assert_eq!(run_queue::block_current(&mut k.system, 0), to(MAIN, IDLE));
    assert_eq!(run_queue::yield_current(&mut k.system, 0), Switched::Stay);
    run_queue::wake_task(&mut k.system, 0, MAIN, false);
    assert_eq!(run_queue::yield_current(&mut k.system, 0), to(IDLE, MAIN));
}

#[test]
fn an_early_wakeup_is_not_lost() {
    let mut k = kernel::<Fifo>(config(), 1);
    run_queue::wake_task(&mut k.system, 0, MAIN, false);
    assert_eq!(k.system.tasks[MAIN].inner.wakeup_cnt, 1);
    assert_eq!(run_queue::block_current(&mut k.system, 0), Switched::Stay);
    assert_eq!(state(&k, MAIN), TaskState::Running);
    // It is used up: the next time the task blocks.
    assert_eq!(k.system.tasks[MAIN].inner.wakeup_cnt, 0);
    assert_eq!(run_queue::block_current(&mut k.system, 0), to(MAIN, GC));
    assert_eq!(state(&k, MAIN), TaskState::Blocked);
}

#[test]
fn only_a_blocked_task_is_queued_by_a_wakeup() {
    let mut k = kernel::<Fifo>(config(), 1);
    run_queue::wake_task(&mut k.system, 0, GC, false);
    assert_eq!(k.system.tasks[GC].inner.wakeup_cnt, 0);
    let _ = run_queue::yield_current(&mut k.system, 0);
    let _ = run_queue::block_current(&mut k.system, 0);
    assert_eq!(state(&k, GC), TaskState::Blocked);
    run_queue::wake_task(&mut k.system, 0, GC, false);
    assert_eq!(state(&k, GC), TaskState::Runable);
    run_queue::wake_task(&mut k.system, 0, GC, false);
    assert_eq!(run_queue::yield_current(&mut k.system, 0), to(MAIN, GC));
    assert_eq!(run_queue::yield_current(&mut k.system, 0), to(GC, MAIN));
}

#[test]
fn a_wakeup_may_ask_for_preemption() {
    let mut c = config();
    c.preempt = true;
    let mut k = kernel::<Fifo>(c, 1);
    let _ = run_queue::yield_current(&mut k.system, 0);
    k.system.tasks[GC].inner.preempt_disable_count = 1;
    let _ = run_queue::block_current(&mut k.system, 0);
    run_queue::wake_task(&mut k.system, 0, GC, true);
    assert!(k.system.tasks[MAIN].inner.preempt_pending);
    // Whoever gets the CPU is not due for preemption any more.
    k.system.tasks[GC].inner.preempt_pending = true;
    let _ = run_queue::yield_current(&mut k.system, 0);
    assert!(!k.system.tasks[GC].inner.preempt_pending);
}

#[test]
fn a_preempted_task_keeps_its_slice() {
    let mut c = config();
    c.preempt = true;
    let mut k = kernel::<RoundRobin>(c, 1);
    k.system.tasks[MAIN].inner.preempt_disable_count = 2;
    assert_eq!(run_queue::preempt_resched(&mut k.system, 0), Switched::Stay);
    assert!(k.system.tasks[MAIN].inner.preempt_pending);
    k.system.tasks[MAIN].inner.preempt_disable_count = 1;
    // With ticks left it comes next again.
    assert_eq!(run_queue::preempt_resched(&mut k.system, 0), Switched::Stay);
    assert!(!k.system.tasks[MAIN].inner.preempt_pending);
    for _ in 0..5 {
        run_queue::scheduler_timer_tick(&mut k.system, 0);
    }
    assert!(k.system.tasks[MAIN].inner.preempt_pending);
    assert_eq!(run_queue::preempt_resched(&mut k.system, 0), to(MAIN, GC));
}

#[test]
fn idle_tasks_are_not_charged() {
    let mut c = config();
    c.preempt = true;
    let mut k = Kernel::<RoundRobin>::new(c, 2);
    run_queue::init(&mut k, 0, stack(0x8000), stack(0x9000), 0);
    run_queue::init_secondary(&mut k, 1, 0);
    for _ in 0..10 {
        run_queue::scheduler_timer_tick(&mut k.system, 1);
    }
    assert!(!k.system.tasks[3].inner.preempt_pending);
}

#[test]
fn priorities_are_for_the_fair_policy() {
    let mut fair = kernel::<Fair>(config(), 1);
    assert!(run_queue::set_current_priority(&mut fair.system, 0, 5));
    assert!(!run_queue::set_current_priority(&mut fair.system, 0, 20));
    let mut fifo = kernel::<Fifo>(config(), 1);
    assert!(!run_queue::set_current_priority(&mut fifo.system, 0, 5));
}

#[test]
fn tasks_are_bound_to_cpus() {
    let mut c = config();
    c.monolithic = true;
    let mut k = kernel::<Fifo>(c, 2);
    run_queue::init_secondary(&mut k, 1, 0);
    let bound = add(&mut k, "bound");
    k.system.tasks[GC].inner.cpu_set = CpuMask { bits: 1 };
    k.system.tasks[bound].inner.cpu_set = CpuMask { bits: 2 };
    k.system.tasks[bound].inner.page_table_token = 0x5000;
    assert_eq!(
        run_queue::yield_current(&mut k.system, 1),
        Switched::To(Switch {
            prev: 3,
            next: bound,
            page_table: Some(0x5000),
            account_time: true,
        })
    );
}

#[test]
fn a_search_ends_with_the_idle_task() {
    let mut c = config();
    c.monolithic = true;
    let mut k = kernel::<Fifo>(c, 2);
    run_queue::init_secondary(&mut k, 1, 0);
    k.system.tasks[GC].inner.cpu_set = CpuMask { bits: 1 };
    assert_eq!(run_queue::yield_current(&mut k.system, 1), Switched::Stay);
    // The task that the search came by is still there for the CPU that it may run on.
    assert_eq!(state(&k, GC), TaskState::Runable);
    assert!(matches!(
        run_queue::yield_current(&mut k.system, 0),
        Switched::To(Switch { prev: MAIN, next: GC, .. })
    ));
}

#[test]
fn a_removed_task_does_not_run() {
    let mut k = kernel::<Fifo>(config(), 1);
    let task = add(&mut k, "t");
    let last = add(&mut k, "u");
    run_queue::remove_task(&mut k, 0, task);
    assert_eq!(state(&k, task), TaskState::Exited);
    assert_eq!(k.exited_tasks, vec![task]);
    assert_eq!(run_queue::yield_current(&mut k.system, 0), to(MAIN, GC));
    assert_eq!(run_queue::yield_current(&mut k.system, 0), to(GC, last));
    // A task that cannot run is left alone.
    let _ = run_queue::block_current(&mut k.system, 0);
    run_queue::remove_task(&mut k, 0, last);
    assert_eq!(state(&k, last), TaskState::Blocked);
}

#[test]
fn the_others_stay_in_order_when_a_task_is_removed() {
    let mut k = kernel::<Fair>(config(), 1);
    let first = add(&mut k, "t");
    let second = add(&mut k, "u");
    assert_eq!(run_queue::block_current(&mut k.system, 0), to(MAIN, GC));
    assert_eq!(run_queue::block_current(&mut k.system, 0), to(GC, first));
    for _ in 0..3 {
        run_queue::scheduler_timer_tick(&mut k.system, 0);
    }
    assert_eq!(run_queue::block_current(&mut k.system, 0), to(first, second));
    for _ in 0..10 {
        run_queue::scheduler_timer_tick(&mut k.system, 0);
    }
    assert_eq!(run_queue::block_current(&mut k.system, 0), to(second, IDLE));
    for task in [first, second, MAIN] {
        run_queue::wake_task(&mut k.system, 0, task, false);
    }
    run_queue::remove_task(&mut k, 0, first);
    assert_eq!(run_queue::yield_current(&mut k.system, 0), to(IDLE, second));
    assert_eq!(run_queue::block_current(&mut k.system, 0), to(second, MAIN));
    assert_eq!(run_queue::block_current(&mut k.system, 0), to(MAIN, IDLE));
}

#[test]
fn an_exit_is_told() {
    let mut k = kernel::<Fifo>(config(), 1);
    let task = add(&mut k, "t");
    assert!(get_wait_for_exit_queue(&k, task).is_some());
    let _ = run_queue::yield_current(&mut k.system, 0);
    let _ = run_queue::yield_current(&mut k.system, 0);
    assert_eq!(k.system.current[0], Some(task));
    assert_eq!(run_queue::exit_current(&mut k, 0, 42), Exit::Switch(to(task, MAIN)));
    assert_eq!(state(&k, task), TaskState::Exited);
    assert_eq!(k.system.tasks[task].inner.exit_code, 42);
    assert_eq!(k.exited_tasks, vec![task]);
    assert!(get_wait_for_exit_queue(&k, task).is_none());
}

#[test]
fn the_kernel_ends_with_its_first_task() {
    let mut k = kernel::<Fifo>(config(), 1);
    assert_eq!(run_queue::exit_current(&mut k, 0, 7), Exit::Terminate);
    assert_eq!(state(&k, MAIN), TaskState::Exited);
    assert_eq!(k.system.tasks[MAIN].inner.exit_code, 0);
    assert!(k.exited_tasks.is_empty());
}

#[test]
fn exited_tasks_are_dropped_by_the_last_holder() {
    let mut exited: VecDeque<usize> = VecDeque::from([4, 5, 6, 7]);
    let holders = vec![9, 9, 9, 9, 1, 2, 1, 3];
    assert_eq!(gc_pass(&mut exited, &holders), vec![4, 6]);
    assert_eq!(exited, vec![5, 7]);
}

#[test]
fn the_dropping_task_waits_for_exits() {
    let mut k = kernel::<Fifo>(config(), 1);
    let task = add(&mut k, "t");
    let _ = run_queue::yield_current(&mut k.system, 0);
    let (dropped, work) = run_queue::gc_entry(&mut k, 0, &vec![2, 2, 2, 2]);
    assert!(dropped.is_empty());
    assert_eq!(work, to(GC, task));
    assert_eq!(state(&k, GC), TaskState::Blocked);
    // An exit wakes it; it drops the task when nobody else holds it.
    let _ = run_queue::exit_current(&mut k, 0, 0);
    assert_eq!(state(&k, GC), TaskState::Runable);
    assert_eq!(run_queue::yield_current(&mut k.system, 0), to(MAIN, GC));
    run_queue::gc_resume(&mut k, GC);
    assert!(k.wait_for_exit.queue.is_empty());
    let (dropped, _) = run_queue::gc_entry(&mut k, 0, &vec![2, 2, 2, 1]);
    assert_eq!(dropped, vec![task]);
    assert!(k.exited_tasks.is_empty());
}

#[test]
fn a_sleeping_task_has_an_alarm() {
    let mut k = kernel::<Fifo>(config(), 1);
    k.system.tasks[MAIN].inner.wakeup_cnt = 3;
    let (alarm, work) = run_queue::schedule_timeout(&mut k.system, 0, 500);
    assert_eq!(alarm, Alarm { deadline: 500, task: MAIN });
    assert_eq!(work, to(MAIN, GC));
    assert!(!run_queue::schedule_timeout_resume(alarm, 499));
    assert!(run_queue::schedule_timeout_resume(alarm, 500));
}

#[test]
fn a_waiting_task_is_notified() {
    let mut k = kernel::<Fifo>(config(), 1);
    let mut queue = WaitQueue::new();
    let (task, work) = queue.wait(&mut k, 0);
    assert_eq!(task, MAIN);
    assert_eq!(work, to(MAIN, GC));
    assert_eq!(queue.queue, vec![MAIN]);
    assert!(queue.notify_one(&mut k, 0, false));
    assert_eq!(state(&k, MAIN), TaskState::Runable);
    // Being notified does not take it out of the queue.
    assert_eq!(queue.queue, vec![MAIN]);
    assert_eq!(run_queue::yield_current(&mut k.system, 0), to(GC, MAIN));
    queue.leave(task);
    assert!(queue.queue.is_empty());
    assert!(!queue.notify_one(&mut k, 0, false));
}

#[test]
fn a_condition_is_tested_again() {
    let mut k = kernel::<Fifo>(config(), 1);
    let mut queue = WaitQueue::with_capacity(4);
    assert_eq!(queue.wait_until(&mut k, 0, true), (MAIN, Waiting::Done));
    assert!(queue.queue.is_empty());
    let (task, waiting) = queue.wait_until(&mut k, 0, false);
    assert_eq!(waiting, Waiting::Again(to(MAIN, GC)));
    assert!(queue.notify_task(&mut k, 0, false, MAIN));
    assert!(!queue.notify_task(&mut k, 0, false, GC));
    let _ = run_queue::yield_current(&mut k.system, 0);
    let again = queue.wait_until_again(&mut k, 0, task, false);
    assert_eq!(again, Waiting::Again(to(MAIN, GC)));
    queue.notify_all(&mut k, 0, false);
    let _ = run_queue::yield_current(&mut k.system, 0);
    assert_eq!(queue.wait_until_again(&mut k, 0, task, true), Waiting::Done);
    assert!(queue.queue.is_empty());
}

#[test]
fn a_wait_has_a_deadline() {
    let mut k = kernel::<Fifo>(config(), 1);
    let mut queue = WaitQueue::new();
    let (alarm, work) = queue.wait_timeout(&mut k, 0, 100, 50);
    assert_eq!(alarm, Alarm { deadline: 150, task: MAIN });
    assert_eq!(work, to(MAIN, GC));
    assert!(queue.wait_timeout_resume(alarm, 150));
    assert!(queue.queue.is_empty());
}

#[test]
fn a_condition_has_a_deadline() {
    let mut k = kernel::<Fifo>(config(), 1);
    let mut queue = WaitQueue::new();
    let done = queue.wait_timeout_until(&mut k, 0, 100, 50, true);
    assert_eq!(done, TimedWaiting::Done(false));
    let alarm = Alarm { deadline: 150, task: MAIN };
    let sleep = queue.wait_timeout_until(&mut k, 0, 100, 50, false);
    assert_eq!(sleep, TimedWaiting::Sleep(alarm, to(MAIN, GC)));
    queue.notify_all(&mut k, 0, false);
    let _ = run_queue::yield_current(&mut k.system, 0);
    let sleep = queue.wait_timeout_until_again(&mut k, 0, alarm, 120, false);
    assert_eq!(sleep, TimedWaiting::Sleep(alarm, to(MAIN, GC)));
    queue.notify_all(&mut k, 0, false);
    let _ = run_queue::yield_current(&mut k.system, 0);
    let late = queue.wait_timeout_until_again(&mut k, 0, alarm, 150, true);
    assert_eq!(late, TimedWaiting::Done(true));
    assert!(queue.queue.is_empty());
    let again = queue.wait_timeout_until_again(&mut k, 0, alarm, 149, true);
    assert_eq!(again, TimedWaiting::Done(false));
}

#[test]
fn all_waiting_tasks_are_woken() {
    let mut k = kernel::<Fifo>(config(), 1);
    let mut queue = WaitQueue::new();
    let _ = queue.wait(&mut k, 0);
    let _ = queue.wait(&mut k, 0);
    assert_eq!(queue.queue, vec![MAIN, GC]);
    assert_eq!(k.system.current[0], Some(IDLE));
    queue.notify_all(&mut k, 0, false);
    assert_eq!(run_queue::yield_current(&mut k.system, 0), to(IDLE, MAIN));
    assert_eq!(run_queue::yield_current(&mut k.system, 0), to(MAIN, GC));
}

#[test]
fn blocking_goes_by_what_the_cpu_schedules_with() {
    let mut k = kernel::<Fifo>(config(), 1);
    assert!(!k.has_processor(0));
    assert!(!k.has_processor(9));
    assert_eq!(block::block_current(&mut k, 0), to(MAIN, GC));
    assert_eq!(state(&k, MAIN), TaskState::Blocked);
    block::wake_task(&mut k, 0, MAIN, false);
    assert_eq!(run_queue::yield_current(&mut k.system, 0), to(GC, MAIN));
}
