//! Task management for a multi-tasking kernel.
//!
//! A [`kernel::Kernel`] holds the tasks, who runs where, and the ready queues. The functions of this crate
//! are the critical sections of a kernel: each decides what is to happen next and says what is left for
//! the machine to do. [`api`] is where a kernel starts; it schedules on processors ([`schedule`],
//! [`processor_ref`]). CPUs without a processor share one queue ([`run_queue`]). What holds of it all is
//! stated in [`order`], [`order_on`] and [`laws`], and what the operations do to the tasks in [`beginnings`],
//! [`effects`], [`switching`], [`turns`] and [`endings`].
pub mod api;
pub mod beginnings;
pub mod block;
pub mod config;
pub mod cpumask;
pub mod effects;
pub mod endings;
pub mod exit;
pub mod kernel;
pub mod laws;
pub mod order;
pub mod order_on;
pub mod processor;
pub mod processor_ref;
pub mod run_queue;
pub mod sched;
pub mod schedule;
pub mod switching;
pub mod system;
pub mod task;
pub mod task_switch;
pub mod turns;
pub mod wait_queue;
