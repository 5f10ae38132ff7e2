//! Ready queues.
//!
//! A ready queue hands out tasks in the order in which they should run next. Three policies are
//! offered, each on top of the `axsched` crate: first in first out, round robin with a time slice,
//! and a fair scheduler that weighs tasks by their nice value.
//!
//! A task is known here by its number. What the policy keeps about a task (its remaining time
//! slice, its nice value) lives in a scheduling item, which is either held by the task or sits in
//! one ready queue. Items cannot be copied, so no task can be queued twice.
use vstd::prelude::*;

pub mod fair;
pub mod fifo;
pub mod round_robin;

verus! {

/// Time slice, in ticks, that the round-robin policy grants to a task.
pub const MAX_TIME_SLICE: usize = 5;

/// What is known of a scheduling item: the task it stands for, the ticks left of its time slice
/// (round robin; 0 elsewhere), and for fair scheduling (0 elsewhere) its nice value, the virtual run time
/// that it started from, the ticks that it has run since, and the run time that it was last queued under.
pub struct Entry {
    pub id: usize,
    pub budget: int,
    pub nice: int,
    pub base: int,
    pub ran: int,
    pub key: int,
}

/// What is known of a ready queue: its items, in the order in which they will be picked, and for fair
/// scheduling (`None` elsewhere) the virtual run time that the next item to be added starts from.
pub struct Ready {
    pub list: Seq<Entry>,
    pub floor: Option<int>,
}

impl Ready {
    /// The queue in which nothing was ever put.
    pub open spec fn none() -> Ready {
        Ready { list: Seq::empty(), floor: None }
    }

    /// How many items wait.
    #[verifier::inline]
    pub open spec fn len(self) -> nat {
        self.list.len()
    }

    /// The item that will be picked after `i` others.
    #[verifier::inline]
    pub open spec fn spec_index(self, i: int) -> Entry {
        self.list[i]
    }

    /// The queue without its first item.
    pub open spec fn rest(self) -> Ready {
        Ready { list: self.list.skip(1), ..self }
    }

    /// The queue with one more item at its end.
    pub open spec fn push(self, e: Entry) -> Ready {
        Ready { list: self.list.push(e), ..self }
    }
}

/// There can be `n` items and a few more: no memory holds more than a machine word can count.
pub open spec fn countable(n: nat) -> bool {
    n + 4 <= isize::MAX
}

/// The run time of the item `e` can be computed: its nice value has a weight, and what it has run fits in a
/// machine word. Only a fair queue computes it; the items of the others have all of this at 0.
pub open spec fn fits(e: Entry) -> bool {
    &&& -20 <= e.nice <= 19
    &&& 0 <= e.base
    &&& 0 <= e.ran
    &&& 0 <= e.key <= isize::MAX
    &&& e.nice != 0 ==> e.ran * 1024 <= isize::MAX
    &&& e.base + fair::charge(e.ran, e.nice) <= isize::MAX
}

/// The run time that the next item to be added to the queue `q` starts from.
pub open spec fn start(q: Ready) -> int {
    match q.floor {
        Some(v) => v,
        None => 0,
    }
}

/// The run time of the item `e` can be computed, and can still be once `e` is added to the queue `q`.
pub open spec fn sound(q: Ready, e: Entry) -> bool {
    fits(e) && fits(Entry { base: start(q), ..e })
}

/// The run times of all items in the queue `q` can be computed.
pub open spec fn all_fit(q: Ready) -> bool {
    forall|i: int| 0 <= i < q.list.len() ==> fits(#[trigger] q.list[i])
}

/// The items `e` and `x` are of the same task, which has the same nice value and has run for as long.
pub open spec fn akin(e: Entry, x: Entry) -> bool {
    x.id == e.id && x.nice == e.nice && x.ran == e.ran
}

/// An item keeps sound where the run time that it would start from becomes no greater.
pub proof fn lemma_sound_lower(q: Ready, a: Ready, e: Entry)
    requires
        sound(q, e),
        0 <= start(a) <= start(q),
    ensures
        sound(a, e),
{
}

/// An item that fits is sound for a queue that starts its items from 0.
pub proof fn lemma_sound_at_zero(q: Ready, e: Entry)
    requires
        fits(e),
        start(q) == 0,
    ensures
        sound(q, e),
{
}

/// There are no more tasks in a queue than there are.
pub proof fn lemma_queue_len(q: Ready, n: nat)
    requires
        distinct(q),
        forall|t: usize| #[trigger] listed(q, t) ==> t < n,
    ensures
        q.list.len() <= n,
{
    let ids = q.list.map_values(|e: Entry| e.id as int);
    assert forall|i: int, j: int| 0 <= i < j < ids.len() implies ids[i] != ids[j] by {
        assert(q.list[i].id != q.list[j].id);
    }
    assert(ids.no_duplicates());
    ids.unique_seq_to_set();
    let all = vstd::set_lib::set_int_range(0, n as int);
    vstd::set_lib::lemma_int_range(0, n as int);
    assert forall|x: int| ids.to_set().contains(x) implies all.contains(x) by {
        let i = choose|i: int| 0 <= i < ids.len() && ids[i] == x;
        assert(listed(q, q.list[i].id));
    }
    vstd::set_lib::lemma_len_subset(ids.to_set(), all);
}

/// The queue `q` holds an item of task `id`.
pub open spec fn listed(q: Ready, id: usize) -> bool {
    exists|i: int| 0 <= i < q.list.len() && (#[trigger] q.list[i]).id == id
}

/// No task has two items in the queue `q`.
pub open spec fn distinct(q: Ready) -> bool {
    forall|i: int, j: int|
        0 <= i < j < q.list.len() ==> (#[trigger] q.list[i]).id != (#[trigger] q.list[j]).id
}

/// In the queue `q` the task `x` comes before the task `y`.
pub open spec fn ahead(q: Ready, x: usize, y: usize) -> bool {
    exists|i: int, j: int|
        0 <= i < j < q.list.len() && (#[trigger] q.list[i]).id == x && (#[trigger] q.list[j]).id == y
}

/// The items of `after` are those of `before` with `e` put somewhere among them.
pub open spec fn inserted(before: Ready, e: Entry, after: Ready) -> bool {
    exists|at: int|
        0 <= at <= before.list.len() && after.list == #[trigger] before.list.insert(at, e)
}

/// `after` holds what `before` holds but for the item of task `id`, in the same order.
pub open spec fn removed(before: Ready, id: usize, after: Ready) -> bool {
    &&& after.floor == before.floor
    &&& exists|at: int|
        0 <= at < before.list.len() && before.list[at].id == id && after.list
            == #[trigger] before.list.remove(at)
}

/// A ready queue with its policy.
pub trait BaseScheduler: Sized {
    /// What the policy keeps about one task.
    type SchedItem;

    /// What the queue holds.
    spec fn ready(&self) -> Ready;

    /// What an item holds.
    spec fn entry(item: Self::SchedItem) -> Entry;

    /// What the item of a new task holds.
    spec fn initial(id: usize) -> Entry;

    /// Adding `e` to the queue `before` may give the queue `after`.
    spec fn adds(e: Entry, before: Ready, after: Ready) -> bool;

    /// Putting `e`, which has just run, back into the queue `before` may give the queue `after`.
    spec fn puts(e: Entry, preempt: bool, before: Ready, after: Ready) -> bool;

    /// What a timer tick makes of the running item `e`.
    spec fn ticked(e: Entry) -> Entry;

    /// The item `e` can have a tick more: its run time can be computed then, also once it is added to the
    /// queue `q`.
    spec fn can_tick(q: Ready, e: Entry) -> bool;

    /// A timer tick on the running item `e`, with `ready` waiting, may leave the item as `after`
    /// and answer `due` to whether another task should run.
    spec fn ticks(e: Entry, ready: Ready, after: Entry, due: bool) -> bool;

    /// The policy takes `prio` as the priority of a task.
    spec fn accepts(prio: isize) -> bool;

    /// What the item `e` holds after its priority was set to the accepted value `prio`.
    spec fn reweighed(e: Entry, prio: isize) -> Entry;

    /// The name of the policy.
    spec fn name() -> Seq<char>;

    /// A new item is an item of the task it was made for, and has not run.
    proof fn initial_id(id: usize)
        ensures
            Self::initial(id).id == id,
            fits(Self::initial(id)),
            forall|q: Ready| 0 <= start(q) <= isize::MAX ==> #[trigger] sound(q, Self::initial(id)),
    ;

    /// To add an item is to insert an item of the same task somewhere. The next item to be added starts
    /// from no greater run time than this one did.
    proof fn adds_inserts(e: Entry, before: Ready, after: Ready)
        requires
            Self::adds(e, before, after),
            sound(before, e),
            all_fit(before),
        ensures
            exists|x: Entry|
                x.id == e.id && akin(e, x) && fits(x) && #[trigger] inserted(before, x, after),
            0 <= start(after) <= start(before),
    ;

    /// To put an item back is to insert an item of the same task somewhere.
    proof fn puts_inserts(e: Entry, preempt: bool, before: Ready, after: Ready)
        requires
            Self::puts(e, preempt, before, after),
            fits(e),
        ensures
            exists|x: Entry|
                x.id == e.id && akin(e, x) && fits(x) && #[trigger] inserted(before, x, after),
            start(after) == start(before),
    ;

    /// A tick leaves the item with its task.
    proof fn ticks_keeps(e: Entry, ready: Ready, after: Entry, due: bool)
        requires
            Self::ticks(e, ready, after, due),
        ensures
            after.id == e.id,
            after == Self::ticked(e),
    ;

    /// The item `e` stays sound.
    proof fn ticked_sound(q: Ready, e: Entry)
        requires
            Self::can_tick(q, e),
            sound(q, e),
        ensures
            sound(q, Self::ticked(e)),
    ;

    /// A change of priority leaves the item with its task.
    proof fn reweighed_id(e: Entry, prio: isize)
        ensures
            Self::reweighed(e, prio).id == e.id,
            forall|q: Ready|
                Self::accepts(prio) && sound(q, e) ==> #[trigger] sound(q, Self::reweighed(e, prio)),
    ;

    /// Creates an empty queue.
    fn new() -> (r: Self)
        ensures
            r.ready() == Ready::none(),
    ;

    /// Creates the item of task `id`.
    fn new_item(id: usize) -> (item: Self::SchedItem)
        ensures
            Self::entry(item) == Self::initial(id),
    ;

    /// The task that an item stands for.
    fn item_id(item: &Self::SchedItem) -> (id: usize)
        ensures
            id == Self::entry(*item).id,
    ;

    /// The name of the policy.
    fn scheduler_name() -> (name: &'static str)
        ensures
            name@ == Self::name(),
    ;

    /// Adds an item of a task that is not in the queue.
    fn add_task(&mut self, item: Self::SchedItem)
        requires
            !listed(old(self).ready(), Self::entry(item).id),
            countable(old(self).ready().len()),
        ensures
            Self::adds(Self::entry(item), old(self).ready(), final(self).ready()),
    ;

    /// Takes the next item to run out of the queue; `None` if nothing waits.
    fn pick_next_task(&mut self) -> (item: Option<Self::SchedItem>)
        ensures
            match item {
                None => old(self).ready().len() == 0 && final(self).ready() == old(self).ready(),
                Some(t) => {
                    &&& old(self).ready().len() > 0
                    &&& Self::entry(t) == old(self).ready()[0]
                    &&& final(self).ready() == old(self).ready().rest()
                },
            },
    ;

    /// Puts an item that has just run back into the queue, in which its task is not. `preempt` says that
    /// it was preempted.
    fn put_prev_task(&mut self, item: Self::SchedItem, preempt: bool)
        requires
            !listed(old(self).ready(), Self::entry(item).id),
            countable(old(self).ready().len()),
            fits(Self::entry(item)),
        ensures
            Self::puts(Self::entry(item), preempt, old(self).ready(), final(self).ready()),
    ;

    /// Accounts a timer tick to the running item; `true` if another task should run.
    fn task_tick(&mut self, item: Self::SchedItem) -> (r: (Self::SchedItem, bool))
        requires
            fits(Self::ticked(Self::entry(item))),
        ensures
            Self::ticks(Self::entry(item), old(self).ready(), Self::entry(r.0), r.1),
            final(self).ready() == old(self).ready(),
    ;

    /// Sets the priority of an item; `true` if the policy takes the value.
    fn set_priority(&mut self, item: Self::SchedItem, prio: isize) -> (r: (Self::SchedItem, bool))
        requires
            fits(Self::entry(item)),
        ensures
            r.1 == Self::accepts(prio),
            Self::entry(r.0) == if r.1 {
                Self::reweighed(Self::entry(item), prio)
            } else {
                Self::entry(item)
            },
            final(self).ready() == old(self).ready(),
    ;
}

/// A ready queue from which a waiting task can be taken out.
pub trait RemovableScheduler: BaseScheduler {
    /// The queue `after` may be what is left of `before` without the item of task `id`.
    spec fn removes(before: Ready, id: usize, after: Ready) -> bool;

    /// Removal takes out the task that it names and no other; the others stay as they are, in the same
    /// order.
    proof fn removes_only(before: Ready, id: usize, after: Ready)
        requires
            distinct(before),
            listed(before, id),
            Self::removes(before, id, after),
        ensures
            distinct(after),
            forall|x: usize| #[trigger] listed(after, x) <==> (listed(before, x) && x != id),
            exists|at: int|
                0 <= at < before.list.len() && before.list[at].id == id && after.list
                    == #[trigger] before.list.remove(at),
    ;

    /// A task can be taken out of the queue `q` without harm to the item `e`: its run time can be computed
    /// whichever of the run times in the queue it starts from then.
    spec fn can_remove(q: Ready, e: Entry) -> bool;

    /// This depends on the nice value of the item and on what it has run.
    proof fn can_remove_akin(q: Ready, e: Entry, x: Entry)
        requires
            Self::can_remove(q, e),
            akin(e, x),
            fits(x),
        ensures
            Self::can_remove(q, x),
    ;

    /// Adding another item makes no difference.
    proof fn adds_can_remove(added: Entry, before: Ready, after: Ready, e: Entry)
        requires
            Self::adds(added, before, after),
            Self::can_remove(before, e),
            sound(before, e),
        ensures
            Self::can_remove(after, e),
    ;

    /// The item `e` stays sound when a task is taken out.
    proof fn removes_sound(before: Ready, id: usize, after: Ready, e: Entry)
        requires
            Self::removes(before, id, after),
            Self::can_remove(before, e),
            sound(before, e),
        ensures
            sound(after, e),
    ;

    /// Takes the item of task `id`, which is in the queue, out of it.
    fn remove_task(&mut self, id: usize) -> (item: Self::SchedItem)
        requires
            distinct(old(self).ready()),
            listed(old(self).ready(), id),
        ensures
            old(self).ready().list.contains(Self::entry(item)),
            Self::entry(item).id == id,
            Self::removes(old(self).ready(), id, final(self).ready()),
    ;
}

/// Taking one item out of a queue without a doubled task leaves the others, each once.
pub proof fn lemma_removed(before: Ready, id: usize, after: Ready)
    requires
        distinct(before),
        removed(before, id, after),
    ensures
        distinct(after),
        forall|x: usize| #[trigger] listed(after, x) <==> (listed(before, x) && x != id),
{
    let at = choose|at: int|
        0 <= at < before.list.len() && before.list[at].id == id && after.list
            == #[trigger] before.list.remove(at);
    assert forall|i: int| 0 <= i < after.list.len() implies #[trigger] after.list[i]
        == before.list[if i < at {
        i
    } else {
        i + 1
    }] by {}
    assert forall|x: usize| #[trigger] listed(after, x) implies listed(before, x) && x != id by {
        let i = choose|i: int| 0 <= i < after.list.len() && (#[trigger] after.list[i]).id == x;
        let j = if i < at {
            i
        } else {
            i + 1
        };
        assert(before.list[j].id == x);
    }
    assert forall|x: usize| listed(before, x) && x != id implies #[trigger] listed(after, x) by {
        let j = choose|j: int| 0 <= j < before.list.len() && (#[trigger] before.list[j]).id == x;
        let i = if j < at {
            j
        } else {
            j - 1
        };
        assert(after.list[i].id == x);
    }
}

/// An insertion leaves the order of the others as it is.
pub proof fn lemma_inserted_ahead(before: Ready, e: Entry, after: Ready)
    requires
        inserted(before, e, after),
    ensures
        forall|x: usize, y: usize| #[trigger] ahead(before, x, y) ==> ahead(after, x, y),
{
    let at = choose|at: int|
        0 <= at <= before.list.len() && after.list == #[trigger] before.list.insert(at, e);
    assert forall|x: usize, y: usize| #[trigger] ahead(before, x, y) implies ahead(after, x, y) by {
        let (i, j) = choose|i: int, j: int|
            0 <= i < j < before.list.len() && (#[trigger] before.list[i]).id == x && (
            #[trigger] before.list[j]).id == y;
        let a = if i < at {
            i
        } else {
            i + 1
        };
        let b = if j < at {
            j
        } else {
            j + 1
        };
        assert(after.list[a].id == x && after.list[b].id == y);
    }
}

/// Taking one task out leaves the order of the others as it is.
pub proof fn lemma_removed_ahead(before: Ready, at: int, after: Ready)
    requires
        0 <= at < before.list.len(),
        after.list == before.list.remove(at),
    ensures
        forall|x: usize, y: usize|
            x != before.list[at].id && y != before.list[at].id && #[trigger] ahead(before, x, y)
                ==> ahead(after, x, y),
{
    assert forall|x: usize, y: usize|
        x != before.list[at].id && y != before.list[at].id && #[trigger] ahead(
            before,
            x,
            y,
        ) implies ahead(after, x, y) by {
        let (i, j) = choose|i: int, j: int|
            0 <= i < j < before.list.len() && (#[trigger] before.list[i]).id == x && (
            #[trigger] before.list[j]).id == y;
        let a = if i < at {
            i
        } else {
            i - 1
        };
        let b = if j < at {
            j
        } else {
            j - 1
        };
        assert(after.list[a].id == x && after.list[b].id == y);
    }
}

/// An insertion adds one task and keeps the others.
pub proof fn lemma_inserted(before: Ready, e: Entry, after: Ready)
    requires
        inserted(before, e, after),
    ensures
        after.list.len() == before.list.len() + 1,
        forall|x: usize| #[trigger] listed(after, x) <==> (listed(before, x) || x == e.id),
        distinct(before) && !listed(before, e.id) ==> distinct(after),
{
    let at = choose|at: int|
        0 <= at <= before.list.len() && after.list == #[trigger] before.list.insert(at, e);
    assert forall|x: usize| #[trigger] listed(after, x) implies listed(before, x) || x == e.id by {
        let i = choose|i: int| 0 <= i < after.list.len() && (#[trigger] after.list[i]).id == x;
        if i < at {
            assert(before.list[i].id == x);
        } else if i > at {
            assert(before.list[i - 1].id == x);
        }
    }
    assert forall|x: usize| listed(before, x) || x == e.id implies #[trigger] listed(after, x) by {
        if x == e.id {
            assert(after.list[at].id == x);
        } else {
            let j = choose|j: int| 0 <= j < before.list.len() && (#[trigger] before.list[j]).id == x;
            let i = if j < at {
                j
            } else {
                j + 1
            };
            assert(after.list[i].id == x);
        }
    }
    if distinct(before) && !listed(before, e.id) {
        assert forall|i: int, j: int| 0 <= i < j < after.list.len() implies (
        #[trigger] after.list[i]).id != (#[trigger] after.list[j]).id by {
            let bi = if i < at {
                i
            } else {
                i - 1
            };
            let bj = if j < at {
                j
            } else {
                j - 1
            };
            if i != at {
                assert(after.list[i] == before.list[bi]);
            }
            if j != at {
                assert(after.list[j] == before.list[bj]);
            }
        }
    }
}

} // verus!
