use axtask::block;
use axtask::config::Config;
use axtask::cpumask::CpuMask;
use axtask::exit::Exit;
use axtask::kernel::Kernel;
use axtask::processor::{select_processor_index, Processor};
use axtask::processor_ref;
use axtask::processor_ref::{current_processor, select_processor, AxProcessorRef, Wakeup};
use axtask::run_queue::Alarm;
use axtask::sched::fair::Fair;
use axtask::sched::fifo::Fifo;
use axtask::sched::round_robin::RoundRobin;
use axtask::sched::BaseScheduler;
use axtask::system::{Switch, Switched};
use axtask::task::{new_task, Allocation, TaskRequest, TaskState};

const IDLE: usize = 0;
const MAIN: usize = 1;
const GC: usize = 2;

/// The top of the stack that a processor starts with, where tasks are coroutines.
const FREE: usize = 0x5000;

fn config() -> Config {
    Config {
        irq: true,
        preempt: false,
        smp: true,
        monolithic: false,
        tls: false,
        coroutine: false,
        kernel_process_id: 1,
        task_stack_size: 0x4000,
        trap_frame_size: 0x100,
        context_size: 0x80,
    }
}

fn stack(stack_top: usize) -> Allocation {
    Allocation { stack_top, tls_ptr: 0, now: 0 }
}

fn kernel<S: BaseScheduler>(c: Config) -> (Kernel<S>, AxProcessorRef) {
    let mut k = Kernel::<S>::new(c, 1);
    processor_ref::init(&mut k, 0, stack(0x8000), stack(0x9000), 0, FREE);
    let p = current_processor(&k, 0);
    (k, p)
}

fn make<S: BaseScheduler>(k: &mut Kernel<S>, name: &str) -> usize {
    new_task(
        k,
        TaskRequest {
            name: String::from(name),
            stack_size: 0x2000,
            process_id: 1,
            page_table_token: 0,
        },
        stack(0xa000),
    )
}

fn to(prev: usize, next: usize) -> Switched {
    Switched::To(Switch { prev, next, page_table: None, account_time: false })
}

fn state<S: BaseScheduler>(k: &Kernel<S>, task: usize) -> TaskState {
    k.system.tasks[task].state()
}

fn processor<S: BaseScheduler>(k: &Kernel<S>) -> &Processor<S> {
    k.processors[0].as_ref().unwrap()
}

#[test]
fn a_processor_to_start_with() {
    let (k, p) = kernel::<Fifo>(config());
    assert_eq!(p.index, 0);
    assert_eq!(k.system.current, vec![Some(MAIN)]);
    assert_eq!(processor(&k).idle_task(), IDLE);
    assert_eq!(processor(&k).gc_task, GC);
    assert_eq!(state(&k, MAIN), TaskState::Runable);
    assert!(k.system.tasks[MAIN].on_cpu());
}

#[test]
fn a_processor_for_another_cpu() {
    let mut c = config();
    c.tls = true;
    let mut k = Kernel::<Fifo>::new(c, 2);
    let tls = processor_ref::init(&mut k, 0, stack(0x8000), stack(0x9000), 0x11, FREE);
    assert_eq!(tls, Some(0x11));
    let tls = processor_ref::init_secondary(&mut k, 1, stack(0xa000), 0x22, FREE);
    assert_eq!(tls, Some(0x22));
    assert_eq!(k.system.current, vec![Some(MAIN), Some(3)]);
    assert!(k.system.tasks[3].inner.is_idle);
    assert_eq!(current_processor(&k, 1).reschedule(&mut k), to(3, 4));
}

#[test]
fn a_switch_is_finished_on_the_other_side() {
    let (mut k, p) = kernel::<Fifo>(config());
    assert_eq!(p.yield_current(&mut k), to(MAIN, GC));
    assert!(k.system.tasks[GC].on_cpu());
    assert!(k.system.tasks[MAIN].on_cpu());
    assert_eq!(processor(&k).prev_ctx_save.0, Some(MAIN));
    p.switch_post(&mut k);
    assert!(!k.system.tasks[MAIN].on_cpu());
    assert_eq!(processor(&k).prev_ctx_save.0, None);
    assert_eq!(p.reschedule(&mut k), to(GC, MAIN));
}

#[test]
fn without_other_cpus_nobody_is_marked() {
    let mut c = config();
    c.smp = false;
    let (mut k, p) = kernel::<Fifo>(c);
    assert_eq!(p.reschedule(&mut k), to(MAIN, GC));
    assert!(!k.system.tasks[GC].on_cpu());
}

#[test]
fn the_idle_task_runs_when_nobody_can() {
    let (mut k, p) = kernel::<Fifo>(config());
    let _ = p.reschedule(&mut k);
    k.system.tasks[GC].set_state(TaskState::Blocked);
    let _ = p.reschedule(&mut k);
    k.system.tasks[MAIN].set_state(TaskState::Blocked);
    assert_eq!(p.reschedule(&mut k), to(MAIN, IDLE));
    assert_eq!(p.reschedule(&mut k), Switched::Stay);
}

#[test]
fn wakeups_depend_on_the_state() {
    let (mut k, p) = kernel::<Fifo>(config());
    let task = make(&mut k, "t");
    assert_eq!(p.wakeup_task(&mut k, task), Wakeup::NotBlocked);
    k.system.tasks[task].set_state(TaskState::Blocked);
    k.system.tasks[task].set_on_cpu(true);
    assert_eq!(p.wakeup_task(&mut k, task), Wakeup::OnCpu);
    assert_eq!(state(&k, task), TaskState::Runable);
    k.system.tasks[task].set_state(TaskState::Blocked);
    k.system.tasks[task].set_on_cpu(false);
    assert_eq!(p.wakeup_task(&mut k, task), Wakeup::Added);
    assert_eq!(p.reschedule(&mut k), to(MAIN, GC));
    assert_eq!(p.reschedule(&mut k), to(GC, task));
}

#[test]
fn a_slice_ends_with_a_pending_preemption() {
    let mut c = config();
    c.preempt = true;
    let (mut k, p) = kernel::<RoundRobin>(c);
    for _ in 0..4 {
        p.scheduler_timer_tick(&mut k);
    }
    assert!(!k.system.tasks[MAIN].inner.preempt_pending);
    p.scheduler_timer_tick(&mut k);
    assert!(k.system.tasks[MAIN].inner.preempt_pending);
    assert_eq!(p.reschedule(&mut k), to(MAIN, GC));
    assert!(!k.system.tasks[GC].inner.preempt_pending);
}

#[test]
fn a_pending_preemption_keeps_the_slice() {
    let mut c = config();
    c.preempt = true;
    let (mut k, p) = kernel::<RoundRobin>(c);
    p.scheduler_timer_tick(&mut k);
    k.system.tasks[MAIN].inner.preempt_pending = true;
    assert_eq!(p.reschedule(&mut k), Switched::Stay);
    assert_eq!(p.reschedule(&mut k), to(MAIN, GC));
}

#[test]
fn priorities_on_a_processor() {
    let (mut fair, p) = kernel::<Fair>(config());
    assert!(p.set_current_priority(&mut fair, -20));
    assert!(!p.set_current_priority(&mut fair, -21));
    let (mut robin, p) = kernel::<RoundRobin>(config());
    assert!(!p.set_current_priority(&mut robin, 0));
}

#[test]
fn an_alarm_goes_with_the_sleep() {
    let (mut k, p) = kernel::<Fifo>(config());
    let (alarm, work) = p.schedule_timeout(&mut k, 77);
    assert_eq!(alarm, Alarm { deadline: 77, task: MAIN });
    assert_eq!(work, to(MAIN, GC));
}

#[test]
fn an_exit_on_a_processor() {
    let (mut k, p) = kernel::<Fifo>(config());
    let task = make(&mut k, "t");
    p.add_task(&mut k, task);
    let _ = p.reschedule(&mut k);
    let _ = p.reschedule(&mut k);
    assert_eq!(k.system.current[0], Some(task));
    assert_eq!(p.exit_current(&mut k, 9), Exit::Switch(to(task, MAIN)));
    assert_eq!(state(&k, task), TaskState::Exited);
    assert_eq!(k.system.tasks[task].inner.exit_code, 9);
    assert_eq!(processor(&k).exited_tasks, vec![task]);
    assert!(!k.wait_for_task_exits.contains_key(&task));
    assert_eq!(p.exit_current(&mut k, 3), Exit::Terminate);
}

#[test]
fn exited_tasks_of_a_processor_are_dropped() {
    let (mut k, p) = kernel::<Fifo>(config());
    let task = make(&mut k, "t");
    p.add_task(&mut k, task);
    let _ = p.reschedule(&mut k);
    assert_eq!(k.system.current[0], Some(GC));
    let (dropped, work) = processor_ref::gc_entry(&mut k, 0, &vec![2, 2, 2, 2]);
    assert!(dropped.is_empty());
    assert_eq!(work, to(GC, task));
    assert_eq!(state(&k, GC), TaskState::Blocked);
    assert_eq!(processor(&k).gc_wait.queue, vec![GC]);
    p.switch_post(&mut k);
    let _ = p.exit_current(&mut k, 0);
    assert_eq!(state(&k, GC), TaskState::Runable);
    p.switch_post(&mut k);
    assert_eq!(p.reschedule(&mut k), to(MAIN, GC));
    p.clean_task_resume(&mut k, GC);
    assert!(processor(&k).gc_wait.queue.is_empty());
    let (dropped, _) = p.clean_task_wait(&mut k, &vec![2, 2, 2, 1]);
    assert_eq!(dropped, vec![task]);
    assert!(processor(&k).exited_tasks.is_empty());
}

#[test]
fn a_processor_forgets_its_exited_tasks() {
    let (mut k, p) = kernel::<Fifo>(config());
    p.kick_exited_task(&mut k, GC);
    assert_eq!(processor(&k).exited_tasks, vec![GC]);
    k.processors[0].as_mut().unwrap().clean();
    assert!(processor(&k).exited_tasks.is_empty());
    Processor::<Fifo>::clean_all();
}

#[test]
fn processors_take_turns() {
    let mut k = Kernel::<Fifo>::new(config(), 3);
    let all = CpuMask::full(3);
    let mut indices = Vec::new();
    for _ in 0..5 {
        indices.push(select_processor_index(&mut k, all));
    }
    assert_eq!(indices, vec![0, 1, 2, 0, 1]);
    // Those that are not in the mask are passed over.
    assert_eq!(select_processor_index(&mut k, CpuMask { bits: 2 }), 1);
    assert_eq!(select_processor_index(&mut k, CpuMask { bits: 5 }), 2);
    assert_eq!(select_processor_index(&mut k, CpuMask { bits: 5 }), 0);
}

#[test]
fn turns_go_on_when_the_counter_wraps() {
    let mut k = Kernel::<Fifo>::new(config(), 3);
    k.processor_index = usize::MAX;
    assert_eq!(select_processor_index(&mut k, CpuMask::full(3)), usize::MAX % 3);
    assert_eq!(select_processor_index(&mut k, CpuMask::full(3)), 0);
}

#[test]
fn a_task_gets_a_processor_that_it_may_run_on() {
    let mut k = Kernel::<Fifo>::new(config(), 2);
    processor_ref::init(&mut k, 0, stack(0x8000), stack(0x9000), 0, FREE);
    processor_ref::init_secondary(&mut k, 1, stack(0xa000), 0, FREE);
    let task = make(&mut k, "t");
    k.system.tasks[task].set_cpumask(CpuMask { bits: 2 });
    assert_eq!(select_processor(&mut k, task).index, 1);
    assert_eq!(select_processor(&mut k, task).index, 1);
}

#[test]
fn stacks_go_round() {
    let (mut k, p) = kernel::<Fifo>(config());
    assert_eq!(p.pick_stack(&mut k, 0x100), 0x100);
    p.set_curr_stack(&mut k, Some(0x100));
    assert_eq!(p.pick_stack(&mut k, 0x200), 0x200);
    p.set_curr_stack(&mut k, Some(0x200));
    assert_eq!(processor(&k).stack_pool, vec![0x100]);
    p.set_curr_stack(&mut k, None);
    assert_eq!(processor(&k).stack_pool, vec![0x100, 0x200]);
    assert_eq!(p.pick_stack(&mut k, 0x300), 0x200);
}

#[test]
fn a_blocking_task_on_a_processor() {
    let (mut k, p) = kernel::<Fifo>(config());
    assert!(k.has_processor(0));
    block::wake_task(&mut k, 0, MAIN, false);
    assert_eq!(k.system.tasks[MAIN].inner.wakeup_cnt, 1);
    assert_eq!(block::block_current(&mut k, 0), Switched::Stay);
    assert_eq!(k.system.tasks[MAIN].inner.wakeup_cnt, 0);
    // For a task that only waits for the CPU no wake-up is counted.
    block::wake_task(&mut k, 0, GC, false);
    assert_eq!(k.system.tasks[GC].inner.wakeup_cnt, 0);
    let (alarm, work) = block::schedule_timeout(&mut k, 0, 5);
    assert_eq!(alarm, Alarm { deadline: 5, task: MAIN });
    assert_eq!(work, to(MAIN, GC));
    assert_eq!(state(&k, MAIN), TaskState::Blocked);
    p.switch_post(&mut k);
    block::wake_task(&mut k, 0, MAIN, false);
    assert_eq!(state(&k, MAIN), TaskState::Runable);
    assert_eq!(p.reschedule(&mut k), to(GC, MAIN));
}
