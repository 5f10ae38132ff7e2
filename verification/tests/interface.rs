use axtask::api;
use axtask::api::{Joining, Preemption, Sleep, YieldNow};
use axtask::config::Config;
use axtask::exit::Exit;
use axtask::kernel::Kernel;
use axtask::processor_ref::current_processor;
use axtask::run_queue::Alarm;
use axtask::sched::fair::Fair;
use axtask::sched::fifo::Fifo;
use axtask::sched::round_robin::RoundRobin;
use axtask::sched::BaseScheduler;
use axtask::schedule;
use axtask::schedule::{Sleeping, Yielded, Yielding};
use axtask::system::{Switch, Switched};
use axtask::task::{Allocation, TaskState};
use axtask::task_switch;
use axtask::task_switch::Next;
use axtask::wait_queue::{WaitQueue, Waiting};

const IDLE: usize = 0;
const MAIN: usize = 1;
const GC: usize = 2;
const FIRST: usize = 3;

/// The top of the stack that a processor starts with.
const FREE: usize = 0x5000;

fn config() -> Config {
    Config {
        irq: true,
        preempt: false,
        smp: false,
        monolithic: false,
        tls: false,
        coroutine: false,
        kernel_process_id: 1,
        task_stack_size: 0x4000,
        trap_frame_size: 0x100,
        context_size: 0x80,
    }
}

fn stack(stack_top: usize) -> Allocation {
    Allocation { stack_top, tls_ptr: 0, now: 0 }
}

fn kernel<S: BaseScheduler>(c: Config) -> Kernel<S> {
    let mut k = Kernel::<S>::new(c, 1);
    api::init_scheduler(&mut k, 0, stack(0x8000), stack(0x9000), 0, FREE);
    k
}

fn to(prev: usize, next: usize) -> Switched {
    Switched::To(Switch { prev, next, page_table: None, account_time: false })
}

fn state<S: BaseScheduler>(k: &Kernel<S>, task: usize) -> TaskState {
    k.system.tasks[task].state()
}

/// Carries out what a switch leaves to do on the other side.
fn finish<S: BaseScheduler>(k: &mut Kernel<S>, work: Switched) {
    if let Switched::To(_) = work {
        current_processor(k, 0).switch_post(k);
    }
}

fn schedule_once<S: BaseScheduler>(k: &mut Kernel<S>) -> usize {
    let work = schedule::schedule(k, 0);
    finish(k, work);
    k.system.current[0].unwrap()
}

#[test]
fn the_current_task() {
    let mut k = Kernel::<Fifo>::new(config(), 2);
    assert!(api::current_may_uninit(&k, 0).is_none());
    api::init_scheduler(&mut k, 0, stack(0x8000), stack(0x9000), 0, FREE);
    assert_eq!(api::current(&k, 0).0, MAIN);
    assert_eq!(api::current_may_uninit(&k, 0).unwrap().0, MAIN);
    api::init_scheduler_secondary(&mut k, 1, stack(0xa000), 0, FREE);
    assert_eq!(api::current(&k, 1).0, 3);
}

#[test]
fn a_waiting_task_is_woken_by_a_spawned_one() {
    let mut k = kernel::<Fifo>(config());
    let mut value = 0;
    let mut queue = WaitQueue::new();
    let task = api::spawn(&mut k, stack(0xa000));
    assert_eq!(task, FIRST);
    // The first task blocks until it is notified.
    let (me, work) = queue.wait(&mut k, 0);
    assert_eq!((me, work), (MAIN, to(MAIN, GC)));
    finish(&mut k, work);
    assert_eq!(schedule_once(&mut k), task);
    // The spawned task updates the value and notifies.
    assert_eq!(value, 0);
    value += 1;
    assert!(queue.notify_one(&mut k, 0, true));
    assert_eq!(schedule_once(&mut k), GC);
    assert_eq!(schedule_once(&mut k), MAIN);
    queue.leave(me);
    assert_eq!(value, 1);
    assert!(queue.queue.is_empty());
}

#[test]
fn spawned_tasks_have_names_and_stacks() {
    let mut k = kernel::<Fifo>(config());
    let plain = api::spawn(&mut k, stack(0xa000));
    let named = api::spawn_raw(&mut k, String::from("worker"), 0x1234, stack(0xb000));
    assert_eq!(k.system.tasks[plain].inner.name, "");
    assert_eq!(k.system.tasks[plain].inner.stack_size, 0x4000);
    assert_eq!(k.system.tasks[named].inner.name, "worker");
    assert_eq!(k.system.tasks[named].inner.stack_size, 0x1234);
    assert_eq!(schedule_once(&mut k), GC);
    assert_eq!(schedule_once(&mut k), plain);
    assert_eq!(schedule_once(&mut k), named);
    assert_eq!(schedule_once(&mut k), MAIN);
}

#[test]
fn spawned_tasks_are_spread() {
    let mut k = Kernel::<Fifo>::new(config(), 2);
    api::init_scheduler(&mut k, 0, stack(0x8000), stack(0x9000), 0, FREE);
    api::init_scheduler_secondary(&mut k, 1, stack(0xa000), 0, FREE);
    let a = api::spawn(&mut k, stack(0xb000));
    let b = api::spawn(&mut k, stack(0xc000));
    let _ = schedule::schedule(&mut k, 0);
    current_processor(&k, 0).switch_post(&mut k);
    assert_eq!(schedule::schedule(&mut k, 0), to(GC, a));
    let _ = schedule::schedule(&mut k, 1);
    current_processor(&k, 1).switch_post(&mut k);
    assert_eq!(schedule::schedule(&mut k, 1), to(4, b));
}

#[test]
fn a_task_yields() {
    let mut k = kernel::<Fifo>(config());
    assert_eq!(api::yield_now(&mut k, 0), YieldNow::Switch(to(MAIN, GC)));
    assert!(k.system.tasks[MAIN].state_locked);
    current_processor(&k, 0).switch_post(&mut k);
    assert!(!k.system.tasks[MAIN].state_locked);
    let r = schedule::yield_current(&mut k, 0, 0);
    assert_eq!(r, Yielded::Switch(to(GC, MAIN)));
}

#[test]
fn an_only_task_goes_on_instead_of_the_idle_one() {
    let mut k = kernel::<Fifo>(config());
    assert_eq!(schedule_once(&mut k), GC);
    k.system.tasks[GC].set_state(TaskState::Blocking);
    assert_eq!(schedule_once(&mut k), MAIN);
    assert_eq!(state(&k, GC), TaskState::Blocked);
    assert_eq!(schedule::schedule(&mut k, 0), Switched::Stay);
    assert!(!k.system.tasks[MAIN].state_locked);
    k.system.tasks[MAIN].set_state(TaskState::Blocking);
    assert_eq!(schedule_once(&mut k), IDLE);
    assert_eq!(api::run_idle(&mut k, 0), Switched::Stay);
}

#[test]
fn a_task_that_is_woken_while_it_blocks_goes_on() {
    let mut k = kernel::<Fifo>(config());
    k.system.tasks[MAIN].set_state(TaskState::Blocking);
    api::wakeup_task(&mut k, MAIN);
    assert_eq!(state(&k, MAIN), TaskState::Runable);
    api::wakeup_task(&mut k, MAIN);
    assert_eq!(state(&k, MAIN), TaskState::Runable);
    k.system.tasks[MAIN].set_state(TaskState::Blocking);
    assert_eq!(schedule_once(&mut k), GC);
    api::wakeup_task(&mut k, MAIN);
    assert_eq!(state(&k, MAIN), TaskState::Runable);
    assert_eq!(schedule_once(&mut k), MAIN);
}

#[test]
fn a_second_wakeup_changes_nothing() {
    let mut k = kernel::<Fifo>(config());
    k.system.tasks[MAIN].set_state(TaskState::Blocking);
    assert_eq!(schedule_once(&mut k), GC);
    assert_eq!(state(&k, MAIN), TaskState::Blocked);
    api::wakeup_task(&mut k, MAIN);
    api::wakeup_task(&mut k, MAIN);
    assert_eq!(state(&k, MAIN), TaskState::Runable);
    // It is queued once.
    k.system.tasks[GC].set_state(TaskState::Blocking);
    assert_eq!(schedule_once(&mut k), MAIN);
    k.system.tasks[MAIN].set_state(TaskState::Blocking);
    assert_eq!(schedule_once(&mut k), IDLE);
}

#[test]
fn a_wakeup_before_the_block_is_not_lost() {
    let mut k = kernel::<Fifo>(config());
    k.system.tasks[MAIN].set_state(TaskState::Blocking);
    api::wakeup_task(&mut k, MAIN);
    assert_eq!(schedule_once(&mut k), GC);
    assert_eq!(state(&k, MAIN), TaskState::Runable);
    assert_eq!(schedule_once(&mut k), MAIN);
}

#[test]
fn a_task_sleeps_until_it_is_woken() {
    let mut k = kernel::<Fifo>(config());
    let alarm = Alarm { deadline: 150, task: MAIN };
    assert_eq!(api::sleep(&mut k, 0, 100, 50), Sleep::Alarm(alarm, to(MAIN, GC)));
    assert_eq!(state(&k, MAIN), TaskState::Blocked);
    current_processor(&k, 0).switch_post(&mut k);
    assert_eq!(schedule_once(&mut k), GC);
    api::wakeup_task(&mut k, alarm.task);
    assert_eq!(schedule_once(&mut k), MAIN);
}

#[test]
fn without_interrupts_a_sleep_is_busy() {
    let mut c = config();
    c.irq = false;
    let mut k = kernel::<Fifo>(c);
    assert_eq!(api::sleep_until(&mut k, 0, 99), Sleep::BusyWait(99));
    assert_eq!(state(&k, MAIN), TaskState::Runable);
}

#[test]
fn a_coroutine_awaits_its_sleep() {
    let mut c = config();
    c.coroutine = true;
    let mut k = kernel::<Fifo>(c);
    let alarm = Alarm { deadline: 99, task: MAIN };
    let sleep = api::sleep_until(&mut k, 0, 99);
    assert_eq!(sleep, Sleep::Await(Sleeping { alarm, flag: false }));
    assert_eq!(state(&k, MAIN), TaskState::Blocking);
    let mut sleeping = Sleeping { alarm, flag: false };
    assert_eq!(sleeping.poll(0), None);
    assert_eq!(sleeping.poll(98), Some(false));
    assert_eq!(sleeping.poll(0), None);
    assert_eq!(sleeping.poll(99), Some(true));
}

#[test]
fn a_coroutine_awaits_its_yield() {
    let mut c = config();
    c.coroutine = true;
    let mut k = kernel::<Fifo>(c);
    assert_eq!(api::yield_now(&mut k, 0), YieldNow::Await(Yielding { flag: false }));
    let mut yielding = api::async_run_idle(&k, 0).yielding;
    assert!(!yielding.poll());
    assert!(yielding.poll());
    assert!(!yielding.poll());
    let mut helper = schedule::yield_helper();
    assert!(!helper.poll());
    assert!(helper.poll());
}

#[test]
fn an_idle_coroutine_waits_for_interrupts_where_there_are_any() {
    for irq in [true, false] {
        let mut c = config();
        c.coroutine = true;
        c.irq = irq;
        let k = kernel::<Fifo>(c);
        let round = api::async_run_idle(&k, 0);
        assert_eq!(round.yielding, Yielding { flag: false });
        assert_eq!(round.wait_for_irqs, irq);
    }
}

#[test]
fn a_task_joins_another() {
    let mut k = kernel::<Fifo>(config());
    let task = api::spawn(&mut k, stack(0xa000));
    let waiting = api::join(&mut k, 0, task);
    assert_eq!(waiting, Joining::Again(to(MAIN, GC)));
    assert_eq!(state(&k, MAIN), TaskState::Blocked);
    assert_eq!(k.wait_for_task_exits[&task].queue, vec![MAIN]);
    current_processor(&k, 0).switch_post(&mut k);
    assert_eq!(schedule_once(&mut k), task);
    // The exit wakes who waits for it.
    assert_eq!(api::exit(&mut k, 0, 42), Exit::Switch(to(task, GC)));
    current_processor(&k, 0).switch_post(&mut k);
    assert_eq!(state(&k, MAIN), TaskState::Runable);
    assert_eq!(schedule_once(&mut k), MAIN);
    assert_eq!(api::join_again(&mut k, 0, task, MAIN), Joining::Exited(42));
    // Nobody has to wait for it any more.
    assert_eq!(api::join(&mut k, 0, task), Joining::Exited(42));
    assert_eq!(state(&k, task), TaskState::Exited);
}

#[test]
fn a_join_goes_on_until_the_exit() {
    let mut k = kernel::<Fifo>(config());
    let task = api::spawn(&mut k, stack(0xa000));
    let _ = api::join(&mut k, 0, task);
    current_processor(&k, 0).switch_post(&mut k);
    api::wakeup_task(&mut k, MAIN);
    assert_eq!(schedule_once(&mut k), task);
    assert_eq!(schedule_once(&mut k), MAIN);
    let again = api::join_again(&mut k, 0, task, MAIN);
    assert_eq!(again, Joining::Again(to(MAIN, GC)));
    assert_eq!(k.wait_for_task_exits[&task].queue, vec![MAIN]);
}

#[test]
fn a_task_waits_for_its_vfork() {
    let mut k = kernel::<Fifo>(config());
    let child = api::spawn(&mut k, stack(0xa000));
    assert_eq!(api::vfork_suspend(&mut k, 0, child), Waiting::Again(to(MAIN, GC)));
    current_processor(&k, 0).switch_post(&mut k);
    assert_eq!(schedule_once(&mut k), child);
    // The child executes a program, leads a process of its own, and says so.
    k.system.tasks[child].inner.is_leader = true;
    api::wake_vfork_process(&mut k, 0, child);
    assert_eq!(state(&k, MAIN), TaskState::Runable);
    assert_eq!(k.wait_for_task_exits[&child].queue, vec![MAIN]);
    let _ = schedule_once(&mut k);
    assert_eq!(schedule_once(&mut k), MAIN);
    assert_eq!(api::vfork_suspend_again(&mut k, 0, child, MAIN), Waiting::Done);
    assert!(k.wait_for_task_exits[&child].queue.is_empty());
    assert_eq!(api::vfork_suspend(&mut k, 0, child), Waiting::Done);
}

#[test]
fn the_first_task_ends_the_kernel() {
    let mut k = kernel::<Fifo>(config());
    assert_eq!(api::exit(&mut k, 0, 1), Exit::Terminate);
    assert_eq!(state(&k, MAIN), TaskState::Exited);
}

#[test]
fn ticks_lead_to_preemption() {
    let mut c = config();
    c.preempt = true;
    let mut k = kernel::<RoundRobin>(c);
    for _ in 0..4 {
        api::on_timer_tick(&mut k, 0);
        assert_eq!(api::current_check_preempt_pending(&mut k, 0, 0, 0), Preemption::Stay);
    }
    api::on_timer_tick(&mut k, 0);
    k.system.tasks[MAIN].inner.preempt_disable_count = 1;
    assert_eq!(api::current_check_preempt_pending(&mut k, 0, 0, 0), Preemption::Stay);
    k.system.tasks[MAIN].inner.preempt_disable_count = 0;
    k.system.tasks[MAIN].set_state(TaskState::Blocking);
    assert_eq!(api::current_check_preempt_pending(&mut k, 0, 0, 0), Preemption::Stay);
    k.system.tasks[MAIN].set_state(TaskState::Runable);
    let r = api::current_check_preempt_pending(&mut k, 0, 0, 0);
    assert_eq!(r, Preemption::Switch(to(MAIN, GC)));
}

#[test]
fn a_preempted_coroutine_leaves_its_stack() {
    let mut c = config();
    c.preempt = true;
    c.coroutine = true;
    let mut k = kernel::<Fifo>(c);
    k.system.tasks[MAIN].inner.preempt_pending = true;
    let r = api::current_check_preempt_pending(&mut k, 0, 0x7000, 0x6000);
    assert_eq!(r, Preemption::Stack(0x4f80));
    assert_eq!(k.system.tasks[MAIN].inner.ctx_ref, 0x7000);
    assert!(k.system.tasks[MAIN].inner.is_thread);
    let p = k.processors[0].as_ref().unwrap();
    assert_eq!(p.curr_stack, Some(FREE));
    assert!(p.stack_pool.is_empty());
}

#[test]
fn an_interrupted_coroutine_goes_on_where_it_was() {
    let mut c = config();
    c.coroutine = true;
    let mut k = kernel::<Fifo>(c);
    let ctx = task_switch::preempt_switch_entry(&mut k, 0, 0x7000, 0x6000);
    assert_eq!(ctx, 0x4f80);
    // Another task runs on the free stack and comes to a halt.
    assert_eq!(task_switch::switch_entry(&mut k, 0), to(MAIN, GC));
    assert_eq!(task_switch::run_next(&mut k, 0), Next::Poll(GC));
    assert!(!task_switch::run_polled(&mut k, 0, false));
    assert_eq!(k.processors[0].as_ref().unwrap().curr_stack, Some(FREE));
    // The interrupted task goes on from its context, and the stack is free again.
    assert_eq!(task_switch::switch_entry(&mut k, 0), to(GC, MAIN));
    assert_eq!(task_switch::run_next(&mut k, 0), Next::Restore(0x7000));
    assert!(!k.system.tasks[MAIN].inner.is_thread);
    let p = k.processors[0].as_ref().unwrap();
    assert_eq!(p.curr_stack, None);
    assert_eq!(p.stack_pool, vec![FREE]);
}

#[test]
fn an_interrupted_coroutine_follows_itself() {
    let mut c = config();
    c.coroutine = true;
    let mut k = kernel::<Fifo>(c);
    assert_eq!(task_switch::switch_entry(&mut k, 0), to(MAIN, GC));
    assert_eq!(task_switch::run_next(&mut k, 0), Next::Poll(GC));
    k.system.tasks[GC].set_state(TaskState::Blocking);
    assert_eq!(task_switch::switch_entry(&mut k, 0), to(GC, MAIN));
    assert_eq!(task_switch::run_next(&mut k, 0), Next::Poll(MAIN));
    // Nothing else waits.
    task_switch::preempt_switch_entry(&mut k, 0, 0x7000, 0x6000);
    assert_eq!(task_switch::switch_entry(&mut k, 0), to(MAIN, MAIN));
    assert_eq!(task_switch::run_next(&mut k, 0), Next::Restore(0x7000));
}

#[test]
fn the_stack_of_an_interrupted_coroutine_stays_with_it() {
    let mut c = config();
    c.coroutine = true;
    let mut k = kernel::<Fifo>(c);
    // The main task is interrupted, and the next one runs on the free stack.
    task_switch::preempt_switch_entry(&mut k, 0, 0x7000, 0x6000);
    assert_eq!(task_switch::switch_entry(&mut k, 0), to(MAIN, GC));
    assert_eq!(task_switch::run_next(&mut k, 0), Next::Poll(GC));
    // It is interrupted there: its stack is not free, and a new one is used.
    let ctx = task_switch::preempt_switch_entry(&mut k, 0, 0x4800, 0x6000);
    assert_eq!(ctx, 0x5f80);
    assert_eq!(k.system.tasks[GC].inner.stack, Some(FREE));
    assert!(k.processors[0].as_ref().unwrap().stack_pool.is_empty());
    assert_eq!(task_switch::switch_entry(&mut k, 0), to(GC, MAIN));
    assert_eq!(task_switch::run_next(&mut k, 0), Next::Restore(0x7000));
    assert_eq!(k.processors[0].as_ref().unwrap().stack_pool, vec![0x6000]);
    // It goes on from its context, comes to a halt, and the CPU schedules on its stack.
    task_switch::preempt_switch_entry(&mut k, 0, 0x7000, 0x9000);
    assert_eq!(task_switch::switch_entry(&mut k, 0), to(MAIN, GC));
    assert_eq!(task_switch::run_next(&mut k, 0), Next::Restore(0x4800));
    assert!(!task_switch::run_polled(&mut k, 0, false));
    assert_eq!(k.system.tasks[GC].inner.stack, None);
    let p = k.processors[0].as_ref().unwrap();
    assert_eq!(p.curr_stack, Some(FREE));
    assert_eq!(p.stack_pool, vec![0x6000]);
}

#[test]
fn a_free_stack_is_kept_ready() {
    for coroutine in [true, false] {
        let mut c = config();
        c.coroutine = coroutine;
        let mut k = Kernel::<Fifo>::new(c, 2);
        api::init_scheduler(&mut k, 0, stack(0x8000), stack(0x9000), 0, FREE);
        api::init_scheduler_secondary(&mut k, 1, stack(0xa000), 0, 0x6000);
        let pool = |cpu: usize| k.processors[cpu].as_ref().unwrap().stack_pool.clone();
        if coroutine {
            assert_eq!(pool(0), vec![FREE]);
            assert_eq!(pool(1), vec![0x6000]);
        } else {
            assert!(pool(0).is_empty());
            assert!(pool(1).is_empty());
        }
        assert!(!k.system.tasks[MAIN].inner.is_thread);
    }
}

#[test]
fn a_yielding_coroutine_leaves_its_stack() {
    let mut c = config();
    c.preempt = true;
    c.coroutine = true;
    let mut k = kernel::<Fifo>(c);
    k.system.tasks[MAIN].inner.ctx_ref = 0x7100;
    k.system.tasks[MAIN].inner.preempt_pending = true;
    let r = schedule::yield_current(&mut k, 0, 0x6000);
    assert_eq!(r, Yielded::Stack(0x7100, 0x4f80));
    assert!(!k.system.tasks[MAIN].inner.preempt_pending);
    assert!(k.system.tasks[MAIN].inner.is_thread);
    task_switch::yield_switch_resume(&mut k, 0);
    let p = k.processors[0].as_ref().unwrap();
    assert_eq!(p.curr_stack, None);
    assert_eq!(p.stack_pool, vec![FREE]);
    // The free stack is used again.
    assert_eq!(task_switch::prepare_new_ctx(&mut k, 0, 0x9000), 0x4f80);
}

#[test]
fn a_coroutine_follows_itself() {
    let mut c = config();
    c.coroutine = true;
    let mut k = kernel::<Fifo>(c);
    assert_eq!(task_switch::switch_entry(&mut k, 0), to(MAIN, GC));
    assert_eq!(task_switch::run_next(&mut k, 0), Next::Poll(GC));
    assert!(!task_switch::run_polled(&mut k, 0, false));
    k.system.tasks[GC].set_state(TaskState::Blocking);
    assert_eq!(task_switch::switch_entry(&mut k, 0), to(GC, MAIN));
    assert_eq!(task_switch::run_next(&mut k, 0), Next::Poll(MAIN));
    assert_eq!(task_switch::switch_entry(&mut k, 0), to(MAIN, MAIN));
    assert_eq!(task_switch::run_next(&mut k, 0), Next::Poll(MAIN));
}

#[test]
fn a_coroutine_comes_to_its_end() {
    let mut c = config();
    c.coroutine = true;
    let mut k = kernel::<Fifo>(c);
    let (task, work) =
        api::block_on(&mut k, 0, String::from("main_coroutine"), 0x4000, stack(0xa000));
    assert_eq!((task, work), (FIRST, to(MAIN, GC)));
    assert_eq!(task_switch::run_next(&mut k, 0), Next::Poll(GC));
    assert!(!task_switch::run_polled(&mut k, 0, true));
    assert_eq!(state(&k, GC), TaskState::Exited);
    assert_eq!(task_switch::switch_entry(&mut k, 0), to(GC, task));
    assert_eq!(task_switch::run_next(&mut k, 0), Next::Poll(task));
    assert!(task_switch::run_polled(&mut k, 0, true));
    assert_eq!(state(&k, task), TaskState::Exited);
    assert!(!k.wait_for_task_exits.contains_key(&task));
    let p = k.processors[0].as_ref().unwrap();
    assert_eq!(p.exited_tasks, vec![GC, task]);
}

#[test]
fn nice_values_are_priorities() {
    let mut k = kernel::<Fair>(config());
    assert!(api::set_priority(&mut k, 0, 19));
    assert!(!api::set_priority(&mut k, 0, 20));
    let mut k = kernel::<Fifo>(config());
    assert!(!api::set_priority(&mut k, 0, 0));
}
