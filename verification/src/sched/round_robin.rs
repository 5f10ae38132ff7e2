//! Round robin with a time slice.
use crate::sched::{inserted, lemma_removed, removed};
use crate::sched::{BaseScheduler, Entry, Ready, RemovableScheduler, MAX_TIME_SLICE};
use axsched::BaseScheduler as _;
use std::collections::BTreeMap;
use std::sync::Arc;
use vstd::prelude::*;

verus! {

/// The item type of `axsched::RRScheduler`.
#[verifier::external_type_specification]
#[verifier::external_body]
#[verifier::reject_recursive_types(T)]
pub struct ExRRTask<T, const S: usize>(axsched::RRTask<T, S>);

/// The queue type `axsched::RRScheduler`.
#[verifier::external_type_specification]
#[verifier::external_body]
#[verifier::reject_recursive_types(T)]
pub struct ExRRScheduler<T, const S: usize>(axsched::RRScheduler<T, S>);

/// What an item holds: the task that it wraps, the ticks left of its time slice, and a mark that tells it
/// from all other items.
pub uninterp spec fn rr_item(item: axsched::RRTask<usize, MAX_TIME_SLICE>) -> (usize, int, int);

/// What the items in the queue hold, first to be picked first.
pub uninterp spec fn rr_queue(s: axsched::RRScheduler<usize, MAX_TIME_SLICE>) -> Seq<(usize, int, int)>;

/// An item that is in no queue. Whoever has it is the only one who uses it.
pub struct RRItem {
    task: Arc<axsched::RRTask<usize, MAX_TIME_SLICE>>,
}

/// A reference to an item that is in a queue, by which it can be taken out.
struct RRLink {
    task: Arc<axsched::RRTask<usize, MAX_TIME_SLICE>>,
}

/// Calls `axsched::RRTask::new`: the item wraps the given number and has a full time slice.
#[verifier::external_body]
fn task_new(id: usize) -> (item: RRItem)
    ensures
        rr_item(*item.task).0 == id,
        rr_item(*item.task).1 == MAX_TIME_SLICE,
{
    RRItem { task: Arc::new(axsched::RRTask::new(id)) }
}

/// Calls `axsched::RRTask::inner`: gives the wrapped number.
#[verifier::external_body]
fn task_inner(item: &RRItem) -> (id: usize)
    ensures
        id == rr_item(*item.task).0,
{
    *item.task.inner()
}

/// Calls `axsched::RRScheduler::new`: the queue is empty.
#[verifier::external_body]
fn queue_new() -> (s: axsched::RRScheduler<usize, MAX_TIME_SLICE>)
    ensures
        rr_queue(s) == Seq::<(usize, int, int)>::empty(),
{
    axsched::RRScheduler::new()
}

/// Calls `axsched::RRScheduler::scheduler_name`.
#[verifier::external_body]
fn queue_name() -> (name: &'static str)
    ensures
        name@ == "Round-robin"@,
{
    axsched::RRScheduler::<usize, MAX_TIME_SLICE>::scheduler_name()
}

/// Calls `axsched::RRScheduler::add_task`: the item, which is in no list before the call, goes to the
/// back of the queue with the time slice that it has. A reference to it is handed out.
#[verifier::external_body]
fn queue_add(s: &mut axsched::RRScheduler<usize, MAX_TIME_SLICE>, item: RRItem) -> (link: RRLink)
    ensures
        rr_queue(*final(s)) == rr_queue(*old(s)).push(rr_item(*item.task)),
        rr_item(*link.task) == rr_item(*item.task),
{
    s.add_task(item.task.clone());
    RRLink { task: item.task }
}

/// Calls `axsched::RRScheduler::pick_next_task`: the item at the front of the queue is taken out.
#[verifier::external_body]
fn queue_pick(s: &mut axsched::RRScheduler<usize, MAX_TIME_SLICE>) -> (item: Option<RRItem>)
    ensures
        match item {
            None => rr_queue(*old(s)).len() == 0 && rr_queue(*final(s)) == rr_queue(*old(s)),
            Some(t) => {
                &&& rr_queue(*old(s)).len() > 0
                &&& rr_item(*t.task) == rr_queue(*old(s))[0]
                &&& rr_queue(*final(s)) == rr_queue(*old(s)).skip(1)
            },
        },
{
    match s.pick_next_task() {
        Some(task) => Some(RRItem { task }),
        None => None,
    }
}

/// Calls `axsched::RRScheduler::put_prev_task`: a preempted item with ticks left goes to the front of
/// the queue; any other goes to the back with a full time slice. It is in no list before the call. A
/// reference to it is handed out.
#[verifier::external_body]
fn queue_put(
    s: &mut axsched::RRScheduler<usize, MAX_TIME_SLICE>,
    item: RRItem,
    preempt: bool,
) -> (link: RRLink)
    ensures
        rr_queue(*final(s)) == rr_put(rr_queue(*old(s)), rr_item(*item.task), preempt),
        rr_item(*link.task) == rr_back(rr_item(*item.task), preempt),
{
    s.put_prev_task(item.task.clone(), preempt);
    RRLink { task: item.task }
}

/// Calls `axsched::RRScheduler::remove_task`: the item that is referred to, which is in the queue, is
/// taken out; the others stay, in the same order.
#[verifier::external_body]
fn queue_remove(s: &mut axsched::RRScheduler<usize, MAX_TIME_SLICE>, link: &RRLink) -> (item: RRItem)
    requires
        rr_queue(*old(s)).contains(rr_item(*link.task)),
    ensures
        rr_item(*item.task) == rr_item(*link.task),
        exists|at: int|
            0 <= at < rr_queue(*old(s)).len() && rr_queue(*old(s))[at] == rr_item(*link.task)
                && rr_queue(*final(s)) == #[trigger] rr_queue(*old(s)).remove(at),
{
    RRItem { task: s.remove_task(&link.task).unwrap() }
}

/// Calls `axsched::RRScheduler::task_tick`: one tick is taken off the time slice of the
/// item (a counter that wraps below `isize::MIN`); the answer is whether that was the last one.
#[verifier::external_body]
fn queue_tick(s: &mut axsched::RRScheduler<usize, MAX_TIME_SLICE>, item: RRItem) -> (r: (RRItem, bool))
    ensures
        rr_item(*r.0.task) == rr_ticked(rr_item(*item.task)),
        r.1 == (rr_item(*item.task).1 <= 1),
        rr_queue(*final(s)) == rr_queue(*old(s)),
{
    let due = s.task_tick(&item.task);
    (item, due)
}

/// Calls `axsched::RRScheduler::set_priority`: no priority is taken, and nothing changes.
#[verifier::external_body]
fn queue_set_priority(
    s: &mut axsched::RRScheduler<usize, MAX_TIME_SLICE>,
    item: RRItem,
    prio: isize,
) -> (r: (RRItem, bool))
    ensures
        rr_item(*r.0.task) == rr_item(*item.task),
        !r.1,
        rr_queue(*final(s)) == rr_queue(*old(s)),
{
    let ok = s.set_priority(&item.task, prio);
    (item, ok)
}

/// The item `x` with a full time slice.
pub open spec fn rr_full(x: (usize, int, int)) -> (usize, int, int) {
    (x.0, MAX_TIME_SLICE as int, x.2)
}

/// The item `x` once it is put back: if it was preempted with ticks left it keeps them.
pub open spec fn rr_back(x: (usize, int, int), preempt: bool) -> (usize, int, int) {
    if preempt && x.1 > 0 {
        x
    } else {
        rr_full(x)
    }
}

/// The queue `q` with the item `x` put back: at the front if it was preempted with ticks left, else at the
/// back.
pub open spec fn rr_put(
    q: Seq<(usize, int, int)>,
    x: (usize, int, int),
    preempt: bool,
) -> Seq<(usize, int, int)> {
    if preempt && x.1 > 0 {
        seq![x] + q
    } else {
        q.push(rr_full(x))
    }
}

/// What is left of a time slice of `n` ticks after one more. The counter wraps around.
pub open spec fn one_less(n: int) -> int {
    if n > isize::MIN {
        n - 1
    } else {
        isize::MAX as int
    }
}

/// The item `x` after a tick.
pub open spec fn rr_ticked(x: (usize, int, int)) -> (usize, int, int) {
    (x.0, one_less(x.1), x.2)
}

/// A queue with a reference to each of its items, by task.
struct Linked {
    queue: axsched::RRScheduler<usize, MAX_TIME_SLICE>,
    links: BTreeMap<usize, RRLink>,
}

impl Linked {
    /// No task is in the queue twice, and each item is referred to.
    spec fn wf(self) -> bool {
        let q = rr_queue(self.queue);
        &&& forall|i: int, j: int|
            0 <= i < j < q.len() ==> (#[trigger] q[i]).0 != (#[trigger] q[j]).0
        &&& forall|i: int|
            0 <= i < q.len() ==> self.links@.contains_key((#[trigger] q[i]).0)
                && rr_item(*self.links@[q[i].0].task) == q[i]
    }

    /// What the queue holds.
    spec fn ready(self) -> Ready {
        Ready {
            list: rr_queue(self.queue).map_values(|x: (usize, int, int)| rr_entry(x.0, x.1)),
            floor: None,
        }
    }

    /// An empty queue.
    fn new() -> (r: Self)
        ensures
            r.wf(),
            r.ready() == Ready::none(),
    {
        let r = Linked { queue: queue_new(), links: BTreeMap::new() };
        assert(r.ready().list =~= Seq::<Entry>::empty());
        r
    }
}

/// A round-robin queue. A task is preempted by the tick that uses up its time slice; tasks have no
/// priority.
pub struct RoundRobin {
    inner: Linked,
}

impl RoundRobin {
    #[verifier::type_invariant]
    spec fn linked(self) -> bool {
        self.inner.wf()
    }
}

/// The entry of task `id` with `budget` ticks left.
pub open spec fn rr_entry(id: usize, budget: int) -> Entry {
    Entry { id, budget, nice: 0, base: 0, ran: 0, key: 0 }
}

impl BaseScheduler for RoundRobin {
    type SchedItem = RRItem;

    closed spec fn ready(&self) -> Ready {
        self.inner.ready()
    }

    closed spec fn entry(item: Self::SchedItem) -> Entry {
        rr_entry(rr_item(*item.task).0, rr_item(*item.task).1)
    }

    open spec fn initial(id: usize) -> Entry {
        rr_entry(id, MAX_TIME_SLICE as int)
    }

    open spec fn adds(e: Entry, before: Ready, after: Ready) -> bool {
        after == before.push(e)
    }

    /// A preempted task that has ticks left keeps them and comes next; any other starts over at the
    /// end of the queue.
    open spec fn puts(e: Entry, preempt: bool, before: Ready, after: Ready) -> bool {
        after == if preempt && e.budget > 0 {
            Ready { list: seq![e] + before.list, ..before }
        } else {
            before.push(Entry { budget: MAX_TIME_SLICE as int, ..e })
        }
    }

    open spec fn ticked(e: Entry) -> Entry {
        Entry { budget: one_less(e.budget), ..e }
    }

    open spec fn can_tick(q: Ready, e: Entry) -> bool {
        true
    }

    open spec fn ticks(e: Entry, ready: Ready, after: Entry, due: bool) -> bool {
        &&& after == Self::ticked(e)
        &&& due == (e.budget <= 1)
    }

    open spec fn accepts(prio: isize) -> bool {
        false
    }

    open spec fn reweighed(e: Entry, prio: isize) -> Entry {
        e
    }

    open spec fn name() -> Seq<char> {
        "Round-robin"@
    }

    proof fn initial_id(id: usize) {
    }

    proof fn adds_inserts(e: Entry, before: Ready, after: Ready) {
        assert(before.list.push(e) =~= before.list.insert(before.list.len() as int, e));
        assert(inserted(before, e, after));
    }

    proof fn puts_inserts(e: Entry, preempt: bool, before: Ready, after: Ready) {
        let full = Entry { budget: MAX_TIME_SLICE as int, ..e };
        if preempt && e.budget > 0 {
            assert(seq![e] + before.list =~= before.list.insert(0, e));
            assert(inserted(before, e, after));
        } else {
            assert(before.list.push(full) =~= before.list.insert(before.list.len() as int, full));
            assert(inserted(before, full, after));
        }
    }

    proof fn ticks_keeps(e: Entry, ready: Ready, after: Entry, due: bool) {
    }

    proof fn ticked_sound(q: Ready, e: Entry) {
    }

    proof fn reweighed_id(e: Entry, prio: isize) {
    }

    fn new() -> Self {
        RoundRobin { inner: Linked::new() }
    }

    fn new_item(id: usize) -> Self::SchedItem {
        task_new(id)
    }

    fn item_id(item: &Self::SchedItem) -> usize {
        task_inner(item)
    }

    fn scheduler_name() -> &'static str {
        queue_name()
    }

    fn add_task(&mut self, item: Self::SchedItem) {
        proof {
            use_type_invariant(&*self);
        }
        let mut inner = Linked::new();
        core::mem::swap(&mut inner, &mut self.inner);
        let ghost q = rr_queue(inner.queue);
        let id = task_inner(&item);
        assert forall|i: int| 0 <= i < q.len() implies (#[trigger] q[i]).0 != id by {
            assert(old(self).ready().list[i].id == q[i].0);
        }
        let link = queue_add(&mut inner.queue, item);
        inner.links.insert(id, link);
        assert(inner.ready().list =~= old(self).ready().list.push(Self::entry(item)));
        self.inner = inner;
    }

    fn pick_next_task(&mut self) -> Option<Self::SchedItem> {
        proof {
            use_type_invariant(&*self);
        }
        let mut inner = Linked::new();
        core::mem::swap(&mut inner, &mut self.inner);
        let item = queue_pick(&mut inner.queue);
        if let Some(t) = &item {
            inner.links.remove(&task_inner(t));
        }
        assert(item is Some ==> inner.ready().list =~= old(self).ready().list.skip(1));
        self.inner = inner;
        item
    }

    fn put_prev_task(&mut self, item: Self::SchedItem, preempt: bool) {
        proof {
            use_type_invariant(&*self);
        }
        let mut inner = Linked::new();
        core::mem::swap(&mut inner, &mut self.inner);
        let ghost q = rr_queue(inner.queue);
        let id = task_inner(&item);
        assert forall|i: int| 0 <= i < q.len() implies (#[trigger] q[i]).0 != id by {
            assert(old(self).ready().list[i].id == q[i].0);
        }
        let link = queue_put(&mut inner.queue, item, preempt);
        inner.links.insert(id, link);
        let ghost e = Self::entry(item);
        let ghost list = old(self).ready().list;
        proof {
            let now = rr_queue(inner.queue);
            if preempt && e.budget > 0 {
                assert forall|i: int| 1 <= i < now.len() implies #[trigger] now[i] == q[i - 1] by {}
                assert(inner.ready().list =~= seq![e] + list);
            } else {
                assert(inner.ready().list =~= list.push(
                    Entry { budget: MAX_TIME_SLICE as int, ..e },
                ));
            }
        }
        self.inner = inner;
    }

    fn task_tick(&mut self, item: Self::SchedItem) -> (Self::SchedItem, bool) {
        proof {
            use_type_invariant(&*self);
        }
        let mut inner = Linked::new();
        core::mem::swap(&mut inner, &mut self.inner);
        let r = queue_tick(&mut inner.queue, item);
        self.inner = inner;
        r
    }

    fn set_priority(&mut self, item: Self::SchedItem, prio: isize) -> (Self::SchedItem, bool) {
        proof {
            use_type_invariant(&*self);
        }
        let mut inner = Linked::new();
        core::mem::swap(&mut inner, &mut self.inner);
        let r = queue_set_priority(&mut inner.queue, item, prio);
        self.inner = inner;
        r
    }
}

impl RemovableScheduler for RoundRobin {
    open spec fn removes(before: Ready, id: usize, after: Ready) -> bool {
        removed(before, id, after)
    }

    proof fn removes_only(before: Ready, id: usize, after: Ready) {
        lemma_removed(before, id, after);
    }

    open spec fn can_remove(q: Ready, e: Entry) -> bool {
        true
    }

    proof fn can_remove_akin(q: Ready, e: Entry, x: Entry) {
    }

    proof fn adds_can_remove(added: Entry, before: Ready, after: Ready, e: Entry) {
    }

    proof fn removes_sound(before: Ready, id: usize, after: Ready, e: Entry) {
    }

    fn remove_task(&mut self, id: usize) -> Self::SchedItem {
        proof {
            use_type_invariant(&*self);
        }
        let mut inner = Linked::new();
        core::mem::swap(&mut inner, &mut self.inner);
        let ghost q = rr_queue(inner.queue);
        let ghost list = inner.ready().list;
        let ghost i = choose|i: int| 0 <= i < list.len() && (#[trigger] list[i]).id == id;
        assert(q[i].0 == id);
        let link = inner.links.remove(&id).unwrap();
        let item = queue_remove(&mut inner.queue, &link);
        proof {
            let at = choose|at: int|
                0 <= at < q.len() && q[at] == rr_item(*link.task) && rr_queue(inner.queue)
                    == #[trigger] q.remove(at);
            assert(inner.ready().list =~= list.remove(at));
            assert(list[at] == Self::entry(item));
            assert(removed(old(self).ready(), id, inner.ready()));
        }
        self.inner = inner;
        item
    }
}

/// A task runs for its time slice: the ticks before the last one do not ask for another task, the last one
/// does. A task that is preempted in between comes next, with what is left of its slice.
pub proof fn lemma_time_slice(
    e: Entry,
    ready: Ready,
    ticked: Entry,
    due: bool,
    before: Ready,
    after: Ready,
)
    requires
        0 < e.budget,
        RoundRobin::ticks(e, ready, ticked, due),
        RoundRobin::puts(ticked, true, before, after),
    ensures
        due <==> e.budget == 1,
        !due ==> after[0] == (Entry { budget: e.budget - 1, ..e }) && after.rest() == before,
        due ==> after.list.last() == (Entry { budget: MAX_TIME_SLICE as int, ..e })
            && after.list.take(before.list.len() as int) == before.list,
{
    if due {
        assert(after.list.take(before.list.len() as int) =~= before.list);
    } else {
        assert(after.list.skip(1) =~= before.list);
    }
}

} // verus!
