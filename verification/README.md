# axtask

Task management for a multi-tasking kernel, written in Verus: tasks, ready queues, wait queues, and the
scheduling decisions around them, with contracts that are proved.

- `src/` is the library. A `Kernel` holds everything that the CPUs of a machine share. Each function is one
  critical section: it takes the kernel by exclusive reference, changes it, and hands out what is left for
  the machine to do (a context switch, an alarm, a stack to schedule on).
  - `sched` holds the ready queues: first in first out, round robin, and fair scheduling, on top of the
    `axsched` crate.
  - `run_queue` is for CPUs that share one queue, `processor` and `processor_ref` for CPUs with ready queues
    of their own, `schedule` and `task_switch` for tasks whose state is locked during a switch and for
    coroutines.
  - `block` and `wait_queue` let tasks wait, `exit` tells of their end, `api` is the interface of a kernel.
  - `order`, `order_on` and `laws` state what every operation keeps.
- `tests/` runs the library with the real queues.
- `app/` carries out on a machine what the library decides.
