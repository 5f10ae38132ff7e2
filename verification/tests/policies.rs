use axtask::sched::fair::Fair;
use axtask::sched::fifo::Fifo;
use axtask::sched::round_robin::RoundRobin;
use axtask::sched::{BaseScheduler, RemovableScheduler, MAX_TIME_SLICE};

/// Takes all tasks out of a queue, in the order in which they are picked.
fn picked<S: BaseScheduler>(queue: &mut S) -> Vec<usize> {
    let mut ids = Vec::new();
    while let Some(item) = queue.pick_next_task() {
        ids.push(S::item_id(&item));
    }
    ids
}

#[test]
fn names_of_the_policies() {
    assert_eq!(Fifo::scheduler_name(), "FIFO");
    assert_eq!(RoundRobin::scheduler_name(), "Round-robin");
    assert_eq!(Fair::scheduler_name(), "Completely Fair");
}

#[test]
fn a_new_queue_is_empty() {
    assert!(Fifo::new().pick_next_task().is_none());
    assert!(RoundRobin::new().pick_next_task().is_none());
    assert!(Fair::new().pick_next_task().is_none());
}

#[test]
fn items_know_their_task() {
    assert_eq!(Fifo::item_id(&Fifo::new_item(7)), 7);
    assert_eq!(RoundRobin::item_id(&RoundRobin::new_item(8)), 8);
    assert_eq!(Fair::item_id(&Fair::new_item(9)), 9);
}

#[test]
fn fifo_picks_in_order() {
    let mut queue = Fifo::new();
    for id in [3, 1, 2] {
        queue.add_task(Fifo::new_item(id));
    }
    let first = queue.pick_next_task().unwrap();
    assert_eq!(Fifo::item_id(&first), 3);
    queue.put_prev_task(first, true);
    assert_eq!(picked(&mut queue), vec![1, 2, 3]);
}

#[test]
fn fifo_knows_no_slices_and_no_priorities() {
    let mut queue = Fifo::new();
    queue.add_task(Fifo::new_item(1));
    let mut item = Fifo::new_item(0);
    for _ in 0..10 {
        let (ticked, due) = queue.task_tick(item);
        assert!(!due);
        item = ticked;
    }
    let (item, taken) = queue.set_priority(item, 0);
    assert!(!taken);
    assert_eq!(Fifo::item_id(&item), 0);
    assert_eq!(picked(&mut queue), vec![1]);
}

#[test]
fn round_robin_grants_a_slice() {
    let mut queue = RoundRobin::new();
    let mut item = RoundRobin::new_item(0);
    let mut answers = Vec::new();
    for _ in 0..MAX_TIME_SLICE {
        let (ticked, due) = queue.task_tick(item);
        answers.push(due);
        item = ticked;
    }
    assert_eq!(answers, vec![false, false, false, false, true]);
}

#[test]
fn round_robin_puts_a_preempted_task_first() {
    let mut queue = RoundRobin::new();
    queue.add_task(RoundRobin::new_item(1));
    queue.add_task(RoundRobin::new_item(2));
    let (item, due) = queue.task_tick(RoundRobin::new_item(0));
    assert!(!due);
    queue.put_prev_task(item, true);
    assert_eq!(picked(&mut queue), vec![0, 1, 2]);
}

#[test]
fn round_robin_puts_a_used_up_task_last() {
    let mut queue = RoundRobin::new();
    queue.add_task(RoundRobin::new_item(1));
    let mut item = RoundRobin::new_item(0);
    for _ in 0..MAX_TIME_SLICE {
        item = queue.task_tick(item).0;
    }
    queue.put_prev_task(item, true);
    // It starts over with a full slice.
    assert_eq!(RoundRobin::item_id(&queue.pick_next_task().unwrap()), 1);
    let again = queue.pick_next_task().unwrap();
    assert_eq!(RoundRobin::item_id(&again), 0);
    assert!(!queue.task_tick(again).1);
}

#[test]
fn round_robin_puts_a_yielding_task_last() {
    let mut queue = RoundRobin::new();
    queue.add_task(RoundRobin::new_item(1));
    queue.put_prev_task(RoundRobin::new_item(0), false);
    assert_eq!(picked(&mut queue), vec![1, 0]);
    let (_, taken) = queue.set_priority(RoundRobin::new_item(0), -5);
    assert!(!taken);
}

#[test]
fn fair_picks_who_has_run_least() {
    let mut queue = Fair::new();
    for id in [1, 2, 3] {
        queue.add_task(Fair::new_item(id));
    }
    let first = queue.pick_next_task().unwrap();
    assert_eq!(Fair::item_id(&first), 1);
    let (first, due) = queue.task_tick(first);
    assert!(due);
    queue.put_prev_task(first, false);
    assert_eq!(picked(&mut queue), vec![2, 3, 1]);
}

#[test]
fn fair_puts_equal_run_times_in_order() {
    let mut queue = Fair::new();
    queue.add_task(Fair::new_item(1));
    queue.add_task(Fair::new_item(2));
    let first = queue.pick_next_task().unwrap();
    queue.put_prev_task(first, true);
    assert_eq!(picked(&mut queue), vec![2, 1]);
}

#[test]
fn fair_asks_for_nobody_while_nobody_waits() {
    let mut queue = Fair::new();
    let mut item = Fair::new_item(0);
    for _ in 0..20 {
        let (ticked, due) = queue.task_tick(item);
        assert!(!due);
        item = ticked;
    }
}

#[test]
fn fair_weighs_by_nice_value() {
    let mut queue = Fair::new();
    let (light, taken) = queue.set_priority(Fair::new_item(1), -20);
    assert!(taken);
    let (heavy, taken) = queue.set_priority(Fair::new_item(2), 19);
    assert!(taken);
    let mut light = light;
    let mut heavy = heavy;
    for _ in 0..100 {
        light = queue.task_tick(light).0;
    }
    heavy = queue.task_tick(heavy).0;
    // A hundred ticks at the one end weigh less than a single tick at the other.
    queue.put_prev_task(heavy, false);
    queue.put_prev_task(light, false);
    assert_eq!(picked(&mut queue), vec![1, 2]);
}

#[test]
fn fair_takes_nice_values_only() {
    let mut queue = Fair::new();
    for (prio, expected) in [(-21, false), (-20, true), (0, true), (19, true), (20, false)] {
        let (_, taken) = queue.set_priority(Fair::new_item(0), prio);
        assert_eq!(taken, expected);
    }
}

#[test]
fn a_waiting_task_can_be_taken_out() {
    let mut fifo = Fifo::new();
    let mut robin = RoundRobin::new();
    let mut fair = Fair::new();
    for id in [1, 2, 3, 4] {
        fifo.add_task(Fifo::new_item(id));
        robin.add_task(RoundRobin::new_item(id));
        fair.add_task(Fair::new_item(id));
    }
    assert_eq!(Fifo::item_id(&fifo.remove_task(2)), 2);
    assert_eq!(RoundRobin::item_id(&robin.remove_task(4)), 4);
    assert_eq!(Fair::item_id(&fair.remove_task(1)), 1);
    assert_eq!(picked(&mut fifo), vec![1, 3, 4]);
    assert_eq!(picked(&mut robin), vec![1, 2, 3]);
    assert_eq!(picked(&mut fair), vec![2, 3, 4]);
}

#[test]
fn fair_starts_new_tasks_from_the_least_run_time() {
    let mut queue = Fair::new();
    for id in [1, 2] {
        let mut item = Fair::new_item(id);
        for _ in 0..3 {
            item = queue.task_tick(item).0;
        }
        queue.put_prev_task(item, false);
    }
    // Nothing was added yet: the first task to be added starts from 0.
    queue.add_task(Fair::new_item(3));
    assert_eq!(Fair::item_id(&queue.pick_next_task().unwrap()), 3);
    // Without the second task, the least run time is the 3 ticks of the first.
    assert_eq!(Fair::item_id(&queue.remove_task(2)), 2);
    queue.add_task(Fair::new_item(4));
    assert_eq!(picked(&mut queue), vec![1, 4]);
}

#[test]
fn fair_keeps_the_run_time_of_a_task_that_changes_its_priority() {
    let mut queue = Fair::new();
    let mut first = Fair::new_item(1);
    let mut second = Fair::new_item(2);
    for _ in 0..4 {
        first = queue.task_tick(first).0;
    }
    for _ in 0..5 {
        second = queue.task_tick(second).0;
    }
    let (first, taken) = queue.set_priority(first, 19);
    assert!(taken);
    queue.put_prev_task(second, false);
    queue.put_prev_task(first, false);
    assert_eq!(picked(&mut queue), vec![1, 2]);
}

#[test]
fn fair_removal_leaves_the_others_in_order() {
    let mut queue = Fair::new();
    // The first task is queued under 0 with 5 ticks still to be charged, the second under 3.
    let mut first = Fair::new_item(1);
    for _ in 0..5 {
        first = queue.task_tick(first).0;
    }
    queue.add_task(first);
    let mut second = Fair::new_item(2);
    for _ in 0..3 {
        second = queue.task_tick(second).0;
    }
    queue.put_prev_task(second, false);
    queue.put_prev_task(Fair::new_item(3), false);
    assert_eq!(Fair::item_id(&queue.remove_task(3)), 3);
    assert_eq!(picked(&mut queue), vec![1, 2]);
}

#[test]
fn fair_removal_of_a_woken_task_leaves_the_others_in_order() {
    let mut queue = Fair::new();
    // Three tasks have run; the first two are woken and start over, the third was put back.
    for (id, ticks) in [(3, 3), (1, 10)] {
        let mut item = Fair::new_item(id);
        for _ in 0..ticks {
            item = queue.task_tick(item).0;
        }
        queue.add_task(item);
    }
    let mut item = Fair::new_item(2);
    for _ in 0..5 {
        item = queue.task_tick(item).0;
    }
    queue.put_prev_task(item, false);
    assert_eq!(Fair::item_id(&queue.remove_task(3)), 3);
    assert_eq!(picked(&mut queue), vec![1, 2]);
}

#[test]
fn fair_charges_what_a_woken_task_ran_before() {
    // The least run time in the queue becomes 3 when another task leaves.
    for (ticks, order) in [(4, vec![1, 2]), (6, vec![2, 1])] {
        let mut queue = Fair::new();
        let mut first = Fair::new_item(1);
        for _ in 0..3 {
            first = queue.task_tick(first).0;
        }
        queue.put_prev_task(first, false);
        queue.put_prev_task(Fair::new_item(9), false);
        queue.remove_task(9);
        // The second task has run for 5 ticks, and starts over from 3.
        let mut second = Fair::new_item(2);
        for _ in 0..5 {
            second = queue.task_tick(second).0;
        }
        queue.add_task(second);
        let mut first = queue.pick_next_task().unwrap();
        assert_eq!(Fair::item_id(&first), 1);
        let second = queue.pick_next_task().unwrap();
        assert_eq!(Fair::item_id(&second), 2);
        for _ in 0..ticks {
            first = queue.task_tick(first).0;
        }
        // One stands at 3 and what it runs now, the other at 3 + 5.
        queue.put_prev_task(second, false);
        queue.put_prev_task(first, false);
        assert_eq!(picked(&mut queue), order);
    }
}

#[test]
fn fair_keeps_the_nice_value_of_a_woken_task() {
    let mut queue = Fair::new();
    let (nice, taken) = queue.set_priority(Fair::new_item(1), 19);
    assert!(taken);
    queue.add_task(nice);
    let mut nice = queue.pick_next_task().unwrap();
    // A tick at nice value 19 counts as 1024 / 15 of one at nice value 0: as 68.
    nice = queue.task_tick(nice).0;
    let mut plain = Fair::new_item(2);
    for _ in 0..68 {
        plain = queue.task_tick(plain).0;
    }
    queue.put_prev_task(nice, false);
    queue.put_prev_task(plain, false);
    queue.put_prev_task(Fair::new_item(3), false);
    assert_eq!(picked(&mut queue), vec![3, 1, 2]);
}

#[test]
fn fair_finds_a_task_that_has_run_since_it_was_queued() {
    let mut queue = Fair::new();
    let mut first = Fair::new_item(1);
    for _ in 0..5 {
        first = queue.task_tick(first).0;
    }
    queue.add_task(first);
    queue.add_task(Fair::new_item(2));
    assert_eq!(Fair::item_id(&queue.remove_task(1)), 1);
    assert_eq!(picked(&mut queue), vec![2]);
}

#[test]
fn a_task_that_was_taken_out_can_be_added_again() {
    let mut fifo = Fifo::new();
    let mut robin = RoundRobin::new();
    let mut fair = Fair::new();
    for id in [1, 2, 3] {
        fifo.add_task(Fifo::new_item(id));
        robin.add_task(RoundRobin::new_item(id));
        fair.add_task(Fair::new_item(id));
    }
    let item = fifo.remove_task(1);
    fifo.add_task(item);
    let item = robin.remove_task(1);
    robin.put_prev_task(item, true);
    let item = fair.remove_task(2);
    fair.put_prev_task(item, false);
    assert_eq!(picked(&mut fifo), vec![2, 3, 1]);
    assert_eq!(picked(&mut robin), vec![1, 2, 3]);
    assert_eq!(picked(&mut fair), vec![1, 3, 2]);
}

#[test]
fn fair_charges_by_weight() {
    // At nice value 5 a tick weighs 1024 / 335 of one at nice value 0: 100 ticks count as 305.
    for (ticks, order) in [(305, vec![2, 1]), (306, vec![1, 2])] {
        let mut queue = Fair::new();
        let (mut nice, taken) = queue.set_priority(Fair::new_item(1), 5);
        assert!(taken);
        let mut plain = Fair::new_item(2);
        for _ in 0..100 {
            nice = queue.task_tick(nice).0;
        }
        for _ in 0..ticks {
            plain = queue.task_tick(plain).0;
        }
        queue.put_prev_task(plain, false);
        queue.put_prev_task(nice, false);
        assert_eq!(picked(&mut queue), order);
    }
}
