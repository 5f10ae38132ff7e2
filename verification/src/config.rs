//! What a kernel is built with.
use vstd::prelude::*;

verus! {

/// A point in time or a duration, in nanoseconds.
pub type TimeValue = u128;

/// The longest duration: `u64::MAX` seconds and 999999999 nanoseconds.
pub const MAX_TIME: TimeValue = 18446744073709551615999999999;

/// The options and constants that a kernel is built with.
#[derive(Clone, Copy, Debug)]
pub struct Config {
    /// Timer interrupts drive sleeping tasks and ticks.
    pub irq: bool,
    /// A running task can be preempted.
    pub preempt: bool,
    /// There is more than one CPU.
    pub smp: bool,
    /// Tasks belong to processes with address spaces of their own.
    pub monolithic: bool,
    /// Tasks have thread-local storage.
    pub tls: bool,
    /// Tasks are coroutines that become threads when they are interrupted.
    pub coroutine: bool,
    /// The process that kernel tasks belong to.
    pub kernel_process_id: u64,
    /// The stack size of a task, unless it asks for another.
    pub task_stack_size: usize,
    /// The size of the trap frame at the top of a kernel stack.
    pub trap_frame_size: usize,
    /// The size of a saved task context.
    pub context_size: usize,
}

} // verus!
