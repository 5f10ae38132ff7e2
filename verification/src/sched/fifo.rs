//! First in, first out.
use crate::sched::{inserted, lemma_removed, removed};
use crate::sched::{BaseScheduler, Entry, Ready, RemovableScheduler};
use axsched::BaseScheduler as _;
use std::collections::BTreeMap;
use std::sync::Arc;
use vstd::prelude::*;

verus! {

/// The item type of `axsched::FifoScheduler`.
#[verifier::external_type_specification]
#[verifier::external_body]
#[verifier::reject_recursive_types(T)]
pub struct ExFifoTask<T>(axsched::FifoTask<T>);

/// The queue type `axsched::FifoScheduler`.
#[verifier::external_type_specification]
#[verifier::external_body]
#[verifier::reject_recursive_types(T)]
pub struct ExFifoScheduler<T>(axsched::FifoScheduler<T>);

/// What an item holds: the task that it wraps, and a mark that tells it from all other items.
pub uninterp spec fn fifo_item(item: axsched::FifoTask<usize>) -> (usize, int);

/// What the items in the queue hold, first to be picked first.
pub uninterp spec fn fifo_queue(s: axsched::FifoScheduler<usize>) -> Seq<(usize, int)>;

/// An item that is in no queue. Whoever has it is the only one who uses it.
pub struct FifoItem {
    task: Arc<axsched::FifoTask<usize>>,
}

/// A reference to an item that is in a queue, by which it can be taken out.
struct FifoLink {
    task: Arc<axsched::FifoTask<usize>>,
}

/// Calls `axsched::FifoTask::new`: the item wraps the given number.
#[verifier::external_body]
fn task_new(id: usize) -> (item: FifoItem)
    ensures
        fifo_item(*item.task).0 == id,
{
    FifoItem { task: Arc::new(axsched::FifoTask::new(id)) }
}

/// Calls `axsched::FifoTask::inner`: gives the wrapped number.
#[verifier::external_body]
fn task_inner(item: &FifoItem) -> (id: usize)
    ensures
        id == fifo_item(*item.task).0,
{
    *item.task.inner()
}

/// Calls `axsched::FifoScheduler::new`: the queue is empty.
#[verifier::external_body]
fn queue_new() -> (s: axsched::FifoScheduler<usize>)
    ensures
        fifo_queue(s) == Seq::<(usize, int)>::empty(),
{
    axsched::FifoScheduler::new()
}

/// Calls `axsched::FifoScheduler::scheduler_name`.
#[verifier::external_body]
fn queue_name() -> (name: &'static str)
    ensures
        name@ == "FIFO"@,
{
    axsched::FifoScheduler::<usize>::scheduler_name()
}

/// Calls `axsched::FifoScheduler::add_task`: the item, which is in no list before the call, goes to the
/// back of the queue. A reference to it is handed out.
#[verifier::external_body]
fn queue_add(s: &mut axsched::FifoScheduler<usize>, item: FifoItem) -> (link: FifoLink)
    ensures
        fifo_queue(*final(s)) == fifo_queue(*old(s)).push(fifo_item(*item.task)),
        fifo_item(*link.task) == fifo_item(*item.task),
{
    s.add_task(item.task.clone());
    FifoLink { task: item.task }
}

/// Calls `axsched::FifoScheduler::pick_next_task`: the item at the front of the queue is taken out.
#[verifier::external_body]
fn queue_pick(s: &mut axsched::FifoScheduler<usize>) -> (item: Option<FifoItem>)
    ensures
        match item {
            None => fifo_queue(*old(s)).len() == 0 && fifo_queue(*final(s)) == fifo_queue(*old(s)),
            Some(t) => {
                &&& fifo_queue(*old(s)).len() > 0
                &&& fifo_item(*t.task) == fifo_queue(*old(s))[0]
                &&& fifo_queue(*final(s)) == fifo_queue(*old(s)).skip(1)
            },
        },
{
    match s.pick_next_task() {
        Some(task) => Some(FifoItem { task }),
        None => None,
    }
}

/// Calls `axsched::FifoScheduler::put_prev_task`: the item, which is in no list before the call, goes to
/// the back of the queue, preempted or not. A reference to it is handed out.
#[verifier::external_body]
fn queue_put(s: &mut axsched::FifoScheduler<usize>, item: FifoItem, preempt: bool) -> (link: FifoLink)
    ensures
        fifo_queue(*final(s)) == fifo_queue(*old(s)).push(fifo_item(*item.task)),
        fifo_item(*link.task) == fifo_item(*item.task),
{
    s.put_prev_task(item.task.clone(), preempt);
    FifoLink { task: item.task }
}

/// Calls `axsched::FifoScheduler::remove_task`: the item that is referred to, which is in the queue, is
/// taken out; the others stay, in the same order.
#[verifier::external_body]
fn queue_remove(s: &mut axsched::FifoScheduler<usize>, link: &FifoLink) -> (item: FifoItem)
    requires
        fifo_queue(*old(s)).contains(fifo_item(*link.task)),
    ensures
        fifo_item(*item.task) == fifo_item(*link.task),
        exists|at: int|
            0 <= at < fifo_queue(*old(s)).len() && fifo_queue(*old(s))[at] == fifo_item(*link.task)
                && fifo_queue(*final(s)) == #[trigger] fifo_queue(*old(s)).remove(at),
{
    FifoItem { task: s.remove_task(&link.task).unwrap() }
}

/// Calls `axsched::FifoScheduler::task_tick`: a tick never asks for another task, and changes
/// nothing.
#[verifier::external_body]
fn queue_tick(s: &mut axsched::FifoScheduler<usize>, item: FifoItem) -> (r: (FifoItem, bool))
    ensures
        fifo_item(*r.0.task) == fifo_item(*item.task),
        !r.1,
        fifo_queue(*final(s)) == fifo_queue(*old(s)),
{
    let due = s.task_tick(&item.task);
    (item, due)
}

/// Calls `axsched::FifoScheduler::set_priority`: no priority is taken, and nothing changes.
#[verifier::external_body]
fn queue_set_priority(
    s: &mut axsched::FifoScheduler<usize>,
    item: FifoItem,
    prio: isize,
) -> (r: (FifoItem, bool))
    ensures
        fifo_item(*r.0.task) == fifo_item(*item.task),
        !r.1,
        fifo_queue(*final(s)) == fifo_queue(*old(s)),
{
    let ok = s.set_priority(&item.task, prio);
    (item, ok)
}

/// A queue with a reference to each of its items, by task.
struct Linked {
    queue: axsched::FifoScheduler<usize>,
    links: BTreeMap<usize, FifoLink>,
}

impl Linked {
    /// No task is in the queue twice, and each item is referred to.
    spec fn wf(self) -> bool {
        let q = fifo_queue(self.queue);
        &&& forall|i: int, j: int|
            0 <= i < j < q.len() ==> (#[trigger] q[i]).0 != (#[trigger] q[j]).0
        &&& forall|i: int|
            0 <= i < q.len() ==> self.links@.contains_key((#[trigger] q[i]).0)
                && fifo_item(*self.links@[q[i].0].task) == q[i]
    }

    /// What the queue holds.
    spec fn ready(self) -> Ready {
        Ready {
            list: fifo_queue(self.queue).map_values(|x: (usize, int)| fifo_entry(x.0)),
            floor: None,
        }
    }

    /// An empty queue.
    fn new() -> (r: Self)
        ensures
            r.wf(),
            r.ready() == Ready::none(),
    {
        let r = Linked { queue: queue_new(), links: BTreeMap::new() };
        assert(r.ready().list =~= Seq::<Entry>::empty());
        r
    }
}

/// A first-in-first-out queue. Ticks never preempt, and tasks have no priority.
pub struct Fifo {
    inner: Linked,
}

impl Fifo {
    #[verifier::type_invariant]
    spec fn linked(self) -> bool {
        self.inner.wf()
    }
}

/// The entry of task `id`: it has neither a time slice nor a nice value.
pub open spec fn fifo_entry(id: usize) -> Entry {
    Entry { id, budget: 0, nice: 0, base: 0, ran: 0, key: 0 }
}

impl BaseScheduler for Fifo {
    type SchedItem = FifoItem;

    closed spec fn ready(&self) -> Ready {
        self.inner.ready()
    }

    closed spec fn entry(item: Self::SchedItem) -> Entry {
        fifo_entry(fifo_item(*item.task).0)
    }

    open spec fn initial(id: usize) -> Entry {
        fifo_entry(id)
    }

    open spec fn adds(e: Entry, before: Ready, after: Ready) -> bool {
        after == before.push(e)
    }

    open spec fn puts(e: Entry, preempt: bool, before: Ready, after: Ready) -> bool {
        after == before.push(e)
    }

    open spec fn ticked(e: Entry) -> Entry {
        e
    }

    open spec fn can_tick(q: Ready, e: Entry) -> bool {
        true
    }

    open spec fn ticks(e: Entry, ready: Ready, after: Entry, due: bool) -> bool {
        after == e && !due
    }

    open spec fn accepts(prio: isize) -> bool {
        false
    }

    open spec fn reweighed(e: Entry, prio: isize) -> Entry {
        e
    }

    open spec fn name() -> Seq<char> {
        "FIFO"@
    }

    proof fn initial_id(id: usize) {
    }

    proof fn adds_inserts(e: Entry, before: Ready, after: Ready) {
        assert(before.list.push(e) =~= before.list.insert(before.list.len() as int, e));
        assert(inserted(before, e, after));
    }

    proof fn puts_inserts(e: Entry, preempt: bool, before: Ready, after: Ready) {
        assert(before.list.push(e) =~= before.list.insert(before.list.len() as int, e));
        assert(inserted(before, e, after));
    }

    proof fn ticks_keeps(e: Entry, ready: Ready, after: Entry, due: bool) {
    }

    proof fn ticked_sound(q: Ready, e: Entry) {
    }

    proof fn reweighed_id(e: Entry, prio: isize) {
    }

    fn new() -> Self {
        Fifo { inner: Linked::new() }
    }

    fn new_item(id: usize) -> Self::SchedItem {
        task_new(id)
    }

    fn item_id(item: &Self::SchedItem) -> usize {
        task_inner(item)
    }

    fn scheduler_name() -> &'static str {
        queue_name()
    }

    fn add_task(&mut self, item: Self::SchedItem) {
        proof {
            use_type_invariant(&*self);
        }
        let mut inner = Linked::new();
        core::mem::swap(&mut inner, &mut self.inner);
        let ghost q = fifo_queue(inner.queue);
        let id = task_inner(&item);
        assert forall|i: int| 0 <= i < q.len() implies (#[trigger] q[i]).0 != id by {
            assert(old(self).ready().list[i].id == q[i].0);
        }
        let link = queue_add(&mut inner.queue, item);
        inner.links.insert(id, link);
        assert(inner.ready().list =~= old(self).ready().list.push(Self::entry(item)));
        self.inner = inner;
    }

    fn pick_next_task(&mut self) -> Option<Self::SchedItem> {
        proof {
            use_type_invariant(&*self);
        }
        let mut inner = Linked::new();
        core::mem::swap(&mut inner, &mut self.inner);
        let item = queue_pick(&mut inner.queue);
        if let Some(t) = &item {
            inner.links.remove(&task_inner(t));
        }
        assert(item is Some ==> inner.ready().list =~= old(self).ready().list.skip(1));
        self.inner = inner;
        item
    }

    fn put_prev_task(&mut self, item: Self::SchedItem, preempt: bool) {
        proof {
            use_type_invariant(&*self);
        }
        let mut inner = Linked::new();
        core::mem::swap(&mut inner, &mut self.inner);
        let ghost q = fifo_queue(inner.queue);
        let id = task_inner(&item);
        assert forall|i: int| 0 <= i < q.len() implies (#[trigger] q[i]).0 != id by {
            assert(old(self).ready().list[i].id == q[i].0);
        }
        let link = queue_put(&mut inner.queue, item, preempt);
        inner.links.insert(id, link);
        assert(inner.ready().list =~= old(self).ready().list.push(Self::entry(item)));
        self.inner = inner;
    }

    fn task_tick(&mut self, item: Self::SchedItem) -> (Self::SchedItem, bool) {
        proof {
            use_type_invariant(&*self);
        }
        let mut inner = Linked::new();
        core::mem::swap(&mut inner, &mut self.inner);
        let r = queue_tick(&mut inner.queue, item);
        self.inner = inner;
        r
    }

    fn set_priority(&mut self, item: Self::SchedItem, prio: isize) -> (Self::SchedItem, bool) {
        proof {
            use_type_invariant(&*self);
        }
        let mut inner = Linked::new();
        core::mem::swap(&mut inner, &mut self.inner);
        let r = queue_set_priority(&mut inner.queue, item, prio);
        self.inner = inner;
        r
    }
}

impl RemovableScheduler for Fifo {
    open spec fn removes(before: Ready, id: usize, after: Ready) -> bool {
        removed(before, id, after)
    }

    proof fn removes_only(before: Ready, id: usize, after: Ready) {
        lemma_removed(before, id, after);
    }

    open spec fn can_remove(q: Ready, e: Entry) -> bool {
        true
    }

    proof fn can_remove_akin(q: Ready, e: Entry, x: Entry) {
    }

    proof fn adds_can_remove(added: Entry, before: Ready, after: Ready, e: Entry) {
    }

    proof fn removes_sound(before: Ready, id: usize, after: Ready, e: Entry) {
    }

    fn remove_task(&mut self, id: usize) -> Self::SchedItem {
        proof {
            use_type_invariant(&*self);
        }
        let mut inner = Linked::new();
        core::mem::swap(&mut inner, &mut self.inner);
        let ghost q = fifo_queue(inner.queue);
        let ghost list = inner.ready().list;
        let ghost i = choose|i: int| 0 <= i < list.len() && (#[trigger] list[i]).id == id;
        assert(q[i].0 == id);
        let link = inner.links.remove(&id).unwrap();
        let item = queue_remove(&mut inner.queue, &link);
        proof {
            let at = choose|at: int|
                0 <= at < q.len() && q[at] == fifo_item(*link.task) && fifo_queue(inner.queue)
                    == #[trigger] q.remove(at);
            assert(inner.ready().list =~= list.remove(at));
            assert(list[at] == Self::entry(item));
            assert(removed(old(self).ready(), id, inner.ready()));
        }
        self.inner = inner;
        item
    }
}

/// Tasks are picked in the order in which they became ready: one that is added, or put back, comes after
/// all that wait already.
pub proof fn lemma_first_in_first_out(e: Entry, preempt: bool, before: Ready, after: Ready)
    requires
        Fifo::adds(e, before, after) || Fifo::puts(e, preempt, before, after),
    ensures
        after.list.take(before.list.len() as int) == before.list,
        after.list.last() == e,
{
    assert(after.list.take(before.list.len() as int) =~= before.list);
}

} // verus!
