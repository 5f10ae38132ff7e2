//! Fair scheduling by virtual run time.
use crate::sched::{fits, inserted, lemma_removed, listed, removed, sound, start};
use crate::sched::{countable, BaseScheduler, Entry, Ready, RemovableScheduler};
use axsched::BaseScheduler as _;
use std::collections::{BTreeMap, VecDeque};
use std::sync::Arc;
use vstd::prelude::*;

verus! {

/// The item type of `axsched::CFScheduler`.
#[verifier::external_type_specification]
#[verifier::external_body]
#[verifier::reject_recursive_types(T)]
pub struct ExCFSTask<T>(axsched::CFSTask<T>);

/// The queue type `axsched::CFScheduler`.
#[verifier::external_type_specification]
#[verifier::external_body]
#[verifier::reject_recursive_types(T)]
pub struct ExCFScheduler<T>(axsched::CFScheduler<T>);

/// What an item holds: the task that it wraps, its nice value, the virtual run time that it started from,
/// the ticks that it has run since, and a mark that tells it from all other items.
pub uninterp spec fn cfs_item(item: axsched::CFSTask<usize>) -> (usize, int, int, int, int);

/// The items in the queue, first to be picked first, each with the run time that it is queued under.
pub uninterp spec fn cfs_queue(s: axsched::CFScheduler<usize>) -> Seq<
    (int, (usize, int, int, int, int)),
>;

/// The run time that the next item to be added starts from; `None` for 0.
pub uninterp spec fn cfs_floor(s: axsched::CFScheduler<usize>) -> Option<int>;

/// How many items were ever put into the queue.
pub uninterp spec fn cfs_count(s: axsched::CFScheduler<usize>) -> int;

/// The weight of the nice values from 0 to 19.
pub open spec fn weights_pos() -> Seq<int> {
    seq![
        1024,
        820,
        655,
        526,
        423,
        335,
        272,
        215,
        172,
        137,
        110,
        87,
        70,
        56,
        45,
        36,
        29,
        23,
        18,
        15,
    ]
}

/// The weight of the nice values from 0 down to -20.
pub open spec fn weights_neg() -> Seq<int> {
    seq![
        1024,
        1277,
        1586,
        1991,
        2501,
        3121,
        3906,
        4904,
        6100,
        7620,
        9548,
        11916,
        14949,
        18705,
        23254,
        29154,
        36291,
        46273,
        56483,
        71755,
        88761,
    ]
}

/// How much of the CPU a task with the given nice value is worth.
pub open spec fn weight(nice: int) -> int {
    if nice >= 0 {
        weights_pos()[nice]
    } else {
        weights_neg()[-nice]
    }
}

/// The virtual run time that some ticks count as at a nice value: 1 for each tick at nice value 0, and
/// otherwise the less, the greater the weight.
pub open spec fn charge(ticks: int, nice: int) -> int {
    if nice == 0 {
        ticks
    } else {
        ticks * 1024 / weight(nice)
    }
}

/// `after` is `before` with `x` put behind all that are queued under the same or a lesser run time, and
/// before all others.
pub open spec fn cfs_placed(
    before: Seq<(int, (usize, int, int, int, int))>,
    x: (int, (usize, int, int, int, int)),
    after: Seq<(int, (usize, int, int, int, int))>,
) -> bool {
    exists|at: int|
        {
            &&& 0 <= at <= before.len()
            &&& after == #[trigger] before.insert(at, x)
            &&& forall|i: int| 0 <= i < at ==> (#[trigger] before[i]).0 <= x.0
            &&& forall|i: int| at <= i < before.len() ==> (#[trigger] before[i]).0 > x.0
        }
}

/// The item `x` starts from the run time `floor`, under which it is queued.
pub open spec fn cfs_started(
    floor: Option<int>,
    x: (usize, int, int, int, int)) -> (int, (usize,
    int,
    int,
    int,
    int),
) {
    let start = match floor {
        Some(v) => v,
        None => 0,
    };
    (start, (x.0, x.1, start, x.3, x.4))
}

/// The item `x` after a tick.
pub open spec fn cfs_ticked(x: (usize, int, int, int, int)) -> (usize, int, int, int, int) {
    (x.0, x.1, x.2, x.3 + 1, x.4)
}

/// The virtual run time of the item `x`.
pub open spec fn cfs_run_time(x: (usize, int, int, int, int)) -> int {
    x.2 + charge(x.3, x.1)
}

/// The virtual run time of the item `x` can be computed in machine words.
pub open spec fn cfs_fits(x: (usize, int, int, int, int)) -> bool {
    fits(cfs_entry((0, x)))
}

/// The item `x` has run for longer than `floor`.
pub open spec fn cfs_behind(floor: Option<int>, x: (usize, int, int, int, int)) -> bool {
    match floor {
        Some(v) => cfs_run_time(x) > v,
        None => true,
    }
}

/// The item `x` after its priority was set to `prio`: what it has run so far is charged at its old nice
/// value.
pub open spec fn cfs_reweighed(
    x: (usize, int, int, int, int),
    prio: int) -> (usize, int, int, int, int,
) {
    (x.0, prio, cfs_run_time(x), 0, x.4)
}

/// The least run time that an item of the queue `q` is queued under.
pub open spec fn cfs_least(q: Seq<(int, (usize, int, int, int, int))>) -> Option<int> {
    if q.len() > 0 {
        Some(q[0].0)
    } else {
        None
    }
}

/// The item `x` is in the queue `q`.
pub open spec fn cfs_holds(
    q: Seq<(int, (usize, int, int, int, int))>,
    x: (usize, int, int, int, int),
) -> bool {
    exists|i: int| 0 <= i < q.len() && (#[trigger] q[i]).1 == x
}

/// The item `x` is in the queue `q`, and is queued under the run time that it has.
pub open spec fn cfs_found(
    q: Seq<(int, (usize, int, int, int, int))>,
    x: (usize, int, int, int, int),
) -> bool {
    exists|i: int| 0 <= i < q.len() && (#[trigger] q[i]).1 == x && q[i].0 == cfs_run_time(x)
}

/// `after` is `before` without the item `x`.
pub open spec fn cfs_taken(
    before: Seq<(int, (usize, int, int, int, int))>,
    x: (usize, int, int, int, int),
    after: Seq<(int, (usize, int, int, int, int))>,
) -> bool {
    exists|at: int|
        0 <= at < before.len() && before[at].1 == x && after == #[trigger] before.remove(at)
}

/// An item that is in no queue. Whoever has it is the only one who uses it.
struct CfsItem {
    task: Arc<axsched::CFSTask<usize>>,
}

/// A reference to an item that is in a queue, by which it can be taken out.
struct CfsLink {
    task: Arc<axsched::CFSTask<usize>>,
}

impl CfsItem {
    /// What the item holds.
    spec fn held(self) -> (usize, int, int, int, int) {
        cfs_item(*self.task)
    }
}

impl CfsLink {
    /// What the item holds.
    spec fn held(self) -> (usize, int, int, int, int) {
        cfs_item(*self.task)
    }
}

/// Calls `axsched::CFSTask::new`: the item wraps the given number, with nice value 0 and no run time.
#[verifier::external_body]
fn task_new(id: usize) -> (item: CfsItem)
    ensures
        cfs_item(*item.task) == (id, 0int, 0int, 0int, cfs_item(*item.task).4),
{
    CfsItem { task: Arc::new(axsched::CFSTask::new(id)) }
}

/// Calls `axsched::CFSTask::inner`: gives the wrapped number.
#[verifier::external_body]
fn task_inner(item: &CfsItem) -> (id: usize)
    ensures
        id == cfs_item(*item.task).0,
{
    *item.task.inner()
}

/// Calls `axsched::CFScheduler::new`: the queue is empty, and the first item starts from 0.
#[verifier::external_body]
fn queue_new() -> (s: axsched::CFScheduler<usize>)
    ensures
        cfs_queue(s) == Seq::<(int, (usize, int, int, int, int))>::empty(),
        cfs_floor(s) is None,
        cfs_count(s) == 0,
{
    axsched::CFScheduler::new()
}

/// Calls `axsched::CFScheduler::scheduler_name`.
#[verifier::external_body]
fn queue_name() -> (name: &'static str)
    ensures
        name@ == "Completely Fair"@,
{
    axsched::CFScheduler::<usize>::scheduler_name()
}

/// Calls `axsched::CFScheduler::add_task`: the item starts from the run time that the queue keeps for
/// this, is queued under it, and what it ran before is still to be charged. The next item to be added
/// will start from the least run time in the queue. Equal run times are told apart by a counter of the
/// items that were put in, which must not wrap around. A reference to the item is handed out.
#[verifier::external_body]
fn queue_add(s: &mut axsched::CFScheduler<usize>, item: CfsItem) -> (link: CfsLink)
    requires
        cfs_count(*old(s)) < isize::MAX,
    ensures
        cfs_placed(
            cfs_queue(*old(s)),
            cfs_started(cfs_floor(*old(s)), cfs_item(*item.task)),
            cfs_queue(*final(s)),
        ),
        cfs_floor(*final(s)) == cfs_least(cfs_queue(*final(s))),
        cfs_count(*final(s)) == cfs_count(*old(s)) + 1,
        cfs_item(*link.task) == cfs_started(cfs_floor(*old(s)), cfs_item(*item.task)).1,
{
    s.add_task(item.task.clone());
    CfsLink { task: item.task }
}

/// Calls `axsched::CFScheduler::pick_next_task`: the item that is queued under the least run time, at
/// the front of the queue, is taken out.
#[verifier::external_body]
fn queue_pick(s: &mut axsched::CFScheduler<usize>) -> (item: Option<CfsItem>)
    ensures
        match item {
            None => cfs_queue(*old(s)).len() == 0 && cfs_queue(*final(s)) == cfs_queue(*old(s)),
            Some(t) => {
                &&& cfs_queue(*old(s)).len() > 0
                &&& cfs_item(*t.task) == cfs_queue(*old(s))[0].1
                &&& cfs_queue(*final(s)) == cfs_queue(*old(s)).skip(1)
            },
        },
        cfs_floor(*final(s)) == cfs_floor(*old(s)),
        cfs_count(*final(s)) == cfs_count(*old(s)),
{
    match s.pick_next_task() {
        Some(task) => Some(CfsItem { task }),
        None => None,
    }
}

/// Calls `axsched::CFScheduler::put_prev_task`: the item is queued under its virtual run time, preempted
/// or not. The run time is computed in machine words, and must fit in them. Equal run times are told apart
/// by a counter of the items that were put in, which must not wrap around. A reference to the item is
/// handed out.
#[verifier::external_body]
fn queue_put(s: &mut axsched::CFScheduler<usize>, item: CfsItem, preempt: bool) -> (link: CfsLink)
    requires
        cfs_fits(cfs_item(*item.task)),
        cfs_count(*old(s)) < isize::MAX,
    ensures
        cfs_placed(
            cfs_queue(*old(s)),
            (cfs_run_time(cfs_item(*item.task)), cfs_item(*item.task)),
            cfs_queue(*final(s)),
        ),
        cfs_floor(*final(s)) == cfs_floor(*old(s)),
        cfs_count(*final(s)) == cfs_count(*old(s)) + 1,
        cfs_item(*link.task) == cfs_item(*item.task),
{
    s.put_prev_task(item.task.clone(), preempt);
    CfsLink { task: item.task }
}

/// Calls `axsched::CFScheduler::remove_task` on an item that is in the queue. It is looked for under its
/// run time, which is computed in machine words and must fit in them. If it is queued under that, it is
/// taken out, the others stay as they are, and the next item to be added will start from the least run
/// time among them. If it is queued under another one, it is not found, and nothing changes.
#[verifier::external_body]
fn queue_remove(s: &mut axsched::CFScheduler<usize>, link: &CfsLink) -> (item: Option<CfsItem>)
    requires
        cfs_holds(cfs_queue(*old(s)), cfs_item(*link.task)),
        cfs_fits(cfs_item(*link.task)),
    ensures
        item is Some <==> cfs_found(cfs_queue(*old(s)), cfs_item(*link.task)),
        item is Some ==> cfs_item(*item->0.task) == cfs_item(*link.task),
        item is Some ==> cfs_taken(
            cfs_queue(*old(s)),
            cfs_item(*link.task),
            cfs_queue(*final(s)),
        ),
        item is Some ==> cfs_floor(*final(s)) == cfs_least(cfs_queue(*final(s))),
        item is None ==> cfs_queue(*final(s)) == cfs_queue(*old(s)),
        item is None ==> cfs_floor(*final(s)) == cfs_floor(*old(s)),
        cfs_count(*final(s)) == cfs_count(*old(s)),
{
    match s.remove_task(&link.task) {
        Some(task) => Some(CfsItem { task }),
        None => None,
    }
}

/// Calls `axsched::CFScheduler::task_tick`: the item has run for one more tick. Another task is asked for
/// if some wait and the item has run for longer than the run time that the next item to be added starts
/// from. The run time after the tick is computed in machine words, and must fit in them.
#[verifier::external_body]
fn queue_tick(s: &mut axsched::CFScheduler<usize>, item: CfsItem) -> (r: (CfsItem, bool))
    requires
        cfs_fits(cfs_ticked(cfs_item(*item.task))),
    ensures
        cfs_item(*r.0.task) == cfs_ticked(cfs_item(*item.task)),
        r.1 == (cfs_queue(*old(s)).len() > 0 && cfs_behind(
            cfs_floor(*old(s)),
            cfs_item(*r.0.task),
        )),
        cfs_queue(*final(s)) == cfs_queue(*old(s)),
        cfs_floor(*final(s)) == cfs_floor(*old(s)),
        cfs_count(*final(s)) == cfs_count(*old(s)),
{
    let due = s.task_tick(&item.task);
    (item, due)
}

/// Calls `axsched::CFScheduler::set_priority`: nice values from -20 to 19 are taken, no others. What the
/// item has run so far is charged at its old nice value; its run time is computed in machine words, and
/// must fit in them.
#[verifier::external_body]
fn queue_set_priority(
    s: &mut axsched::CFScheduler<usize>,
    item: CfsItem,
    prio: isize,
) -> (r: (CfsItem, bool))
    requires
        cfs_fits(cfs_item(*item.task)),
    ensures
        r.1 == (-20 <= prio <= 19),
        r.1 ==> cfs_item(*r.0.task) == cfs_reweighed(cfs_item(*item.task), prio as int),
        !r.1 ==> cfs_item(*r.0.task) == cfs_item(*item.task),
        cfs_queue(*final(s)) == cfs_queue(*old(s)),
        cfs_floor(*final(s)) == cfs_floor(*old(s)),
        cfs_count(*final(s)) == cfs_count(*old(s)),
{
    let ok = s.set_priority(&item.task, prio);
    (item, ok)
}

/// An empty queue whose next item to be added starts from the run time of the item `p`.
fn starting_from(p: CfsItem) -> (s: axsched::CFScheduler<usize>)
    requires
        cfs_fits(p.held()),
    ensures
        cfs_queue(s).len() == 0,
        cfs_floor(s) == Some(cfs_run_time(p.held())),
        cfs_count(s) == 2,
{
    let mut s = queue_new();
    let ghost x = (cfs_run_time(p.held()), p.held());
    let id = task_inner(&p);
    let other = task_new(if id == 0 { 1 } else { 0 });
    let ghost y = (0int, other.held());
    queue_put(&mut s, p, false);
    assert(cfs_queue(s) =~= seq![x]);
    // The queue learns the run time of `p` when another item leaves.
    let link = queue_put(&mut s, other, false);
    let ghost both = cfs_queue(s);
    assert(both =~= seq![x, y] || both =~= seq![y, x]);
    assert(both.contains(y));
    assert(cfs_found(both, other.held()));
    assert(cfs_holds(both, other.held()));
    let _ = queue_remove(&mut s, &link);
    assert(cfs_queue(s) =~= seq![x]);
    let _ = queue_pick(&mut s);
    s
}

/// The item `r`, which starts anew from the run time of the item `p`.
fn restarted(p: CfsItem, r: CfsItem) -> (item: CfsItem)
    requires
        cfs_fits(p.held()),
    ensures
        item.held() == cfs_started(Some(cfs_run_time(p.held())), r.held()).1,
{
    let mut s = starting_from(p);
    let ghost x = cfs_started(cfs_floor(s), r.held());
    let _ = queue_add(&mut s, r);
    assert(cfs_queue(s) =~= seq![x]);
    queue_pick(&mut s).unwrap()
}

/// The place of a task in a queue. An item that was added is kept aside, and a new one stands in for it,
/// which starts where it should: as that one has run for no tick, it is queued under the run time that
/// it has, and can be found again.
struct Place {
    link: CfsLink,
    kept: Option<CfsItem>,
}

/// A queue with the place of each of its tasks.
struct Placed {
    queue: axsched::CFScheduler<usize>,
    places: BTreeMap<usize, Place>,
    /// How many items were ever put into the queue.
    count: usize,
    /// The next item to be added starts from a run time that the queue has learned.
    learned: bool,
}

/// The item `x` has its place.
spec fn in_place(x: (int, (usize, int, int, int, int)), places: Map<usize, Place>) -> bool {
    let p = places[x.1.0];
    &&& places.contains_key(x.1.0)
    &&& p.link.held() == x.1
    &&& x.0 == cfs_run_time(x.1)
    &&& cfs_fits(x.1)
    &&& p.kept is Some ==> p.kept->0.held().0 == x.1.0
}

/// The entry of the task that the item `x` stands for.
spec fn shown(x: (int, (usize, int, int, int, int)), places: Map<usize, Place>) -> Entry {
    match places[x.1.0].kept {
        None => cfs_entry(x),
        Some(r) => cfs_entry(cfs_started(Some(x.0), r.held())),
    }
}

/// The entries of the tasks in a queue.
spec fn shown_all(
    q: Seq<(int, (usize, int, int, int, int))>,
    places: Map<usize, Place>,
) -> Seq<Entry> {
    Seq::new(q.len(), |i: int| shown(q[i], places))
}

impl Placed {
    /// The queue is in order, no task is in it twice, each item has its place and each place an item, and
    /// the run times fit in machine words.
    spec fn wf(self) -> bool {
        let q = cfs_queue(self.queue);
        &&& forall|i: int, j: int| 0 <= i < j < q.len() ==> (#[trigger] q[i]).0 <= (#[trigger] q[j]).0
        &&& forall|i: int, j: int|
            0 <= i < j < q.len() ==> (#[trigger] q[i]).1.0 != (#[trigger] q[j]).1.0
        &&& forall|i: int| 0 <= i < q.len() ==> in_place(#[trigger] q[i], self.places@)
        &&& forall|id: usize| #[trigger]
            self.places@.contains_key(id) ==> exists|i: int|
                0 <= i < q.len() && (#[trigger] q[i]).1.0 == id
        &&& self.count == cfs_count(self.queue)
        &&& self.count < isize::MAX
        &&& self.learned == (cfs_floor(self.queue) is Some)
        &&& self.learned ==> 0 <= cfs_floor(self.queue)->0 <= isize::MAX
    }

    /// What the queue holds.
    spec fn ready(self) -> Ready {
        Ready { list: shown_all(cfs_queue(self.queue), self.places@), floor: cfs_floor(self.queue) }
    }

    /// An empty queue.
    fn new() -> (r: Self)
        ensures
            r.wf(),
            r.ready() == Ready::none(),
    {
        let r = Placed { queue: queue_new(), places: BTreeMap::new(), count: 0, learned: false };
        assert(r.ready().list =~= Seq::<Entry>::empty());
        r
    }

    /// Makes sure that the counter of the queue does not wrap around when an item is put in: in due time
    /// all items move to a new queue, with the same contents.
    fn make_room(&mut self)
        requires
            old(self).wf(),
            countable(cfs_queue(old(self).queue).len()),
        ensures
            final(self).wf(),
            cfs_queue(final(self).queue) == cfs_queue(old(self).queue),
            cfs_floor(final(self).queue) == cfs_floor(old(self).queue),
            final(self).places@ == old(self).places@,
            final(self).count + 1 < isize::MAX,
    {
        if self.count < isize::MAX as usize - 1 {
            return ;
        }
        let ghost q = cfs_queue(self.queue);
        let ghost floor = cfs_floor(self.queue);
        let mut items: VecDeque<CfsItem> = VecDeque::new();
        let ghost mut n: int = 0;
        assert(q.skip(0) =~= q);
        loop
            invariant_except_break
                cfs_queue(self.queue) == q.skip(n),
            invariant
                0 <= n <= q.len(),
                items@.len() == n,
                forall|i: int| 0 <= i < n ==> (#[trigger] items@[i]).held() == q[i].1,
                cfs_floor(self.queue) == floor,
                cfs_count(self.queue) == cfs_count(old(self).queue),
                self.places@ == old(self).places@,
                self.learned == old(self).learned,
            ensures
                n == q.len(),
                cfs_queue(self.queue).len() == 0,
            decreases q.len() - n,
        {
            match queue_pick(&mut self.queue) {
                None => {
                    break ;
                },
                Some(item) => {
                    assert(q.skip(n)[0] == q[n]);
                    assert(q.skip(n).skip(1) =~= q.skip(n + 1));
                    items.push_back(item);
                    proof {
                        n = n + 1;
                    }
                },
            }
        }
        let mut s = if self.learned {
            let first = task_new(0);
            let ghost x = cfs_started(floor, first.held());
            let _ = queue_add(&mut self.queue, first);
            assert(cfs_queue(self.queue) =~= seq![x]);
            let first = queue_pick(&mut self.queue).unwrap();
            starting_from(first)
        } else {
            queue_new()
        };
        let mut count: usize = if self.learned { 2 } else { 0 };
        assert(cfs_floor(s) == floor);
        let ghost mut m: int = 0;
        assert(cfs_queue(s) =~= q.take(0));
        while items.len() > 0
            invariant
                0 <= m <= q.len(),
                items@.len() == q.len() - m,
                forall|i: int| 0 <= i < items@.len() ==> (#[trigger] items@[i]).held() == q[m + i].1,
                cfs_queue(s) == q.take(m),
                cfs_floor(s) == floor,
                cfs_count(s) == count,
                count <= m + 2,
                countable(q.len()),
                forall|i: int, j: int|
                    0 <= i < j < q.len() ==> (#[trigger] q[i]).0 <= (#[trigger] q[j]).0,
                forall|i: int| 0 <= i < q.len() ==> in_place(#[trigger] q[i], old(self).places@),
            decreases items@.len(),
        {
            let ghost left = items@;
            let item = items.pop_front().unwrap();
            assert(left[0].held() == q[m + 0].1);
            assert(in_place(q[m], old(self).places@));
            let _ = queue_put(&mut s, item, false);
            count = count + 1;
            proof {
                lemma_at_the_end(q, m, cfs_queue(s));
                assert forall|i: int| 0 <= i < items@.len() implies (#[trigger] items@[i]).held()
                    == q[m + 1 + i].1 by {
                    assert(items@[i] == left[i + 1]);
                    assert(left[i + 1].held() == q[m + (i + 1)].1);
                }
                m = m + 1;
            }
        }
        assert(q.take(m) =~= q);
        self.queue = s;
        self.count = count;
    }
}

/// The items of a queue that is in order, put into another one after the other, stay in order.
proof fn lemma_at_the_end(
    q: Seq<(int, (usize, int, int, int, int))>,
    m: int,
    after: Seq<(int, (usize, int, int, int, int))>,
)
    requires
        0 <= m < q.len(),
        forall|i: int, j: int| 0 <= i < j < q.len() ==> (#[trigger] q[i]).0 <= (#[trigger] q[j]).0,
        cfs_placed(q.take(m), q[m], after),
    ensures
        after == q.take(m + 1),
{
    let before = q.take(m);
    let at = choose|at: int|
        {
            &&& 0 <= at <= before.len()
            &&& after == #[trigger] before.insert(at, q[m])
            &&& forall|i: int| 0 <= i < at ==> (#[trigger] before[i]).0 <= q[m].0
            &&& forall|i: int| at <= i < before.len() ==> (#[trigger] before[i]).0 > q[m].0
        };
    if at < m {
        assert(before[at] == q[at]);
    }
    assert(after =~= q.take(m + 1));
}

/// A queue that runs the task with the least virtual run time next. The priority of a task is its
/// nice value.
pub struct Fair {
    inner: Placed,
}

impl Fair {
    #[verifier::type_invariant]
    spec fn placed(self) -> bool {
        self.inner.wf()
    }
}

/// An item of a fair queue, with the run time that it was last queued under.
pub struct FairItem {
    item: CfsItem,
    key: Ghost<int>,
}

/// The entry of an item `x.1` that is queued under the run time `x.0`.
pub open spec fn cfs_entry(x: (int, (usize, int, int, int, int))) -> Entry {
    let (key, (id, nice, base, ran, _)) = x;
    Entry { id, budget: 0, nice, base, ran, key }
}

/// The virtual run time of an item.
pub open spec fn run_time(e: Entry) -> int {
    e.base + charge(e.ran, e.nice)
}

/// The item `e` starts from the run time `floor`, under which it is queued.
pub open spec fn started(floor: Option<int>, e: Entry) -> Entry {
    let start = match floor {
        Some(v) => v,
        None => 0,
    };
    Entry { base: start, key: start, ..e }
}

/// `after` is `before` with `e` put behind all that are queued under the same or a lesser run time, and
/// before all others.
pub open spec fn placed(before: Seq<Entry>, e: Entry, after: Seq<Entry>) -> bool {
    exists|at: int|
        {
            &&& 0 <= at <= before.len()
            &&& after == #[trigger] before.insert(at, e)
            &&& forall|i: int| 0 <= i < at ==> (#[trigger] before[i]).key <= e.key
            &&& forall|i: int| at <= i < before.len() ==> (#[trigger] before[i]).key > e.key
        }
}

/// The least run time that an item of a queue in order is queued under.
pub open spec fn least(q: Seq<Entry>) -> Option<int> {
    if q.len() > 0 {
        Some(q[0].key)
    } else {
        None
    }
}

/// A queue is in order: a lesser run time comes first.
pub open spec fn by_run_time(q: Seq<Entry>) -> bool {
    forall|i: int, j: int| 0 <= i < j < q.len() ==> (#[trigger] q[i]).key <= (#[trigger] q[j]).key
}

/// A fair queue stays in order, so the task that is picked is one that has run least.
pub proof fn lemma_by_run_time(before: Seq<Entry>, e: Entry, after: Seq<Entry>)
    requires
        by_run_time(before),
        placed(before, e, after),
    ensures
        by_run_time(after),
        forall|i: int| 0 <= i < after.len() ==> after[0].key <= (#[trigger] after[i]).key,
        before.len() > 0 ==> by_run_time(before.skip(1)),
{
    let at = choose|at: int|
        {
            &&& 0 <= at <= before.len()
            &&& after == #[trigger] before.insert(at, e)
            &&& forall|i: int| 0 <= i < at ==> (#[trigger] before[i]).key <= e.key
            &&& forall|i: int| at <= i < before.len() ==> (#[trigger] before[i]).key > e.key
        };
    assert forall|i: int, j: int| 0 <= i < j < after.len() implies (#[trigger] after[i]).key <= (
    #[trigger] after[j]).key by {
        let a = if i < at {
            i
        } else {
            i - 1
        };
        let b = if j < at {
            j
        } else {
            j - 1
        };
        if i != at {
            assert(after[i] == before[a]);
        }
        if j != at {
            assert(after[j] == before[b]);
        }
    }
}

/// A weight is positive, and the lower a nice value, the greater its weight.
pub proof fn lemma_weight(a: int, b: int)
    requires
        -20 <= a <= b <= 19,
    ensures
        0 < weight(b) <= weight(a),
        weight(0) == 1024,
    decreases b - a,
{
    assert(weight(b) > 0);
    if a < b {
        lemma_weight(a, b - 1);
        assert(weight(b) <= weight(b - 1));
    }
}

/// What ticks count as: nothing less than 0, more ticks count for no less, and the same ticks for no more at
/// a lower nice value.
pub proof fn lemma_charge(ticks: int, more: int, low: int, high: int)
    requires
        0 <= ticks <= more,
        -20 <= low <= high <= 19,
    ensures
        0 <= charge(ticks, low),
        charge(ticks, low) <= charge(more, low),
        charge(ticks, low) <= charge(ticks, high),
{
    lemma_weight(low, high);
    lemma_charged(ticks, low);
    lemma_charged(more, low);
    lemma_charged(ticks, high);
    vstd::arithmetic::div_mod::lemma_div_is_ordered(ticks * 1024, more * 1024, weight(low));
    vstd::arithmetic::div_mod::lemma_div_is_ordered_by_denominator(
        ticks * 1024,
        weight(high),
        weight(low),
    );
    vstd::arithmetic::div_mod::lemma_div_pos_is_pos(ticks * 1024, weight(low));
}

/// What ticks count as is their share by weight, at nice value 0 too.
proof fn lemma_charged(ticks: int, nice: int)
    requires
        0 <= ticks,
        -20 <= nice <= 19,
    ensures
        charge(ticks, nice) == ticks * 1024 / weight(nice),
        weight(nice) > 0,
{
    lemma_weight(nice, nice);
    if nice == 0 {
        assert(ticks * 1024 / 1024 == ticks);
    }
}

/// A task can have a tick more as long as 1024 times its ticks, on top of the run times that it may start
/// from, fit in a machine word.
pub proof fn lemma_can_tick(q: Ready, e: Entry)
    requires
        sound(q, e),
        e.base + (e.ran + 1) * 1024 <= isize::MAX,
        start(q) + (e.ran + 1) * 1024 <= isize::MAX,
    ensures
        Fair::can_tick(q, e),
{
    let ticks = e.ran + 1;
    lemma_charged(ticks, e.nice);
    vstd::arithmetic::div_mod::lemma_div_is_ordered_by_denominator(ticks * 1024, 1, weight(e.nice));
    vstd::arithmetic::div_mod::lemma_div_basics(ticks * 1024);
}

/// A tick never lessens the virtual run time of a task, and adds one to it at nice value 0.
pub proof fn lemma_tick_charged(e: Entry, ready: Ready, after: Entry, due: bool)
    requires
        Fair::ticks(e, ready, after, due),
        fits(e),
    ensures
        run_time(e) <= run_time(after),
        e.nice == 0 ==> run_time(after) == run_time(e) + 1,
{
    lemma_charge(e.ran, e.ran + 1, e.nice, e.nice);
}

/// A change of priority leaves the virtual run time of a task as it is: only what it runs from now on is
/// counted by the new nice value.
pub proof fn lemma_reweighed(e: Entry, prio: isize)
    requires
        Fair::accepts(prio),
    ensures
        run_time(Fair::reweighed(e, prio)) == run_time(e),
{
    lemma_charged(0, prio as int);
    vstd::arithmetic::div_mod::lemma_div_basics(weight(prio as int));
}

impl BaseScheduler for Fair {
    type SchedItem = FairItem;

    closed spec fn ready(&self) -> Ready {
        self.inner.ready()
    }

    closed spec fn entry(item: Self::SchedItem) -> Entry {
        cfs_entry((item.key@, cfs_item(*item.item.task)))
    }

    open spec fn initial(id: usize) -> Entry {
        Entry { id, budget: 0, nice: 0, base: 0, ran: 0, key: 0 }
    }

    /// The next task to be added starts from the least run time in the queue.
    open spec fn adds(e: Entry, before: Ready, after: Ready) -> bool {
        &&& placed(before.list, started(before.floor, e), after.list)
        &&& after.floor == least(after.list)
    }

    open spec fn puts(e: Entry, preempt: bool, before: Ready, after: Ready) -> bool {
        &&& placed(before.list, Entry { key: run_time(e), ..e }, after.list)
        &&& after.floor == before.floor
    }

    open spec fn ticked(e: Entry) -> Entry {
        Entry { ran: e.ran + 1, ..e }
    }

    open spec fn can_tick(q: Ready, e: Entry) -> bool {
        sound(q, Self::ticked(e))
    }

    open spec fn ticks(e: Entry, ready: Ready, after: Entry, due: bool) -> bool {
        &&& after == Self::ticked(e)
        &&& due == (ready.len() > 0 && match ready.floor {
            Some(v) => run_time(after) > v,
            None => true,
        })
    }

    open spec fn accepts(prio: isize) -> bool {
        -20 <= prio <= 19
    }

    open spec fn reweighed(e: Entry, prio: isize) -> Entry {
        Entry { nice: prio as int, base: run_time(e), ran: 0, ..e }
    }

    open spec fn name() -> Seq<char> {
        "Completely Fair"@
    }

    proof fn initial_id(id: usize) {
    }

    proof fn adds_inserts(e: Entry, before: Ready, after: Ready) {
        let x = started(before.floor, e);
        assert(inserted(before, x, after));
        let at = choose|at: int|
            {
                &&& 0 <= at <= before.list.len()
                &&& after.list == #[trigger] before.list.insert(at, x)
                &&& forall|i: int| 0 <= i < at ==> (#[trigger] before.list[i]).key <= x.key
                &&& forall|i: int| at <= i < before.list.len() ==> (#[trigger] before.list[i]).key > x.key
            };
        if at > 0 {
            assert(after.list[0] == before.list[0]);
        }
    }

    proof fn puts_inserts(e: Entry, preempt: bool, before: Ready, after: Ready) {
        lemma_charge(e.ran, e.ran, e.nice, e.nice);
        assert(inserted(before, Entry { key: run_time(e), ..e }, after));
    }

    proof fn ticks_keeps(e: Entry, ready: Ready, after: Entry, due: bool) {
    }

    proof fn ticked_sound(q: Ready, e: Entry) {
    }

    proof fn reweighed_id(e: Entry, prio: isize) {
        if Self::accepts(prio) {
            lemma_charged(0, prio as int);
            vstd::arithmetic::div_mod::lemma_div_basics(weight(prio as int));
            if 0 <= e.ran && -20 <= e.nice <= 19 {
                lemma_charge(e.ran, e.ran, e.nice, e.nice);
            }
        }
    }

    fn new() -> Self {
        Fair { inner: Placed::new() }
    }

    fn new_item(id: usize) -> Self::SchedItem {
        FairItem { item: task_new(id), key: Ghost(0) }
    }

    fn item_id(item: &Self::SchedItem) -> usize {
        task_inner(&item.item)
    }

    fn scheduler_name() -> &'static str {
        queue_name()
    }

    fn add_task(&mut self, item: Self::SchedItem) {
        proof {
            use_type_invariant(&*self);
        }
        let mut inner = Placed::new();
        core::mem::swap(&mut inner, &mut self.inner);
        inner.make_room();
        let ghost before = inner;
        let ghost q = cfs_queue(inner.queue);
        let id = task_inner(&item.item);
        assert forall|i: int| 0 <= i < q.len() implies (#[trigger] q[i]).1.0 != id by {
            assert(old(self).ready().list[i].id == q[i].1.0);
        }
        let first = task_new(id);
        let ghost x = cfs_started(cfs_floor(inner.queue), first.held());
        let link = queue_add(&mut inner.queue, first);
        let ghost place = Place { link, kept: Some(item.item) };
        inner.places.insert(id, Place { link, kept: Some(item.item) });
        inner.count = inner.count + 1;
        inner.learned = true;
        proof {
            lemma_put(before, x, place, inner);
            assert(shown(x, inner.places@) == started(old(self).ready().floor, Self::entry(item)));
            lemma_front(inner);
        }
        self.inner = inner;
    }

    fn pick_next_task(&mut self) -> Option<Self::SchedItem> {
        proof {
            use_type_invariant(&*self);
        }
        let mut inner = Placed::new();
        core::mem::swap(&mut inner, &mut self.inner);
        let ghost before = inner;
        let ghost q = cfs_queue(inner.queue);
        match queue_pick(&mut inner.queue) {
            None => {
                self.inner = inner;
                None
            },
            Some(item) => {
                assert(in_place(q[0], before.places@));
                let place = inner.places.remove(&task_inner(&item)).unwrap();
                proof {
                    assert(q.skip(1) =~= q.remove(0));
                    lemma_taken(before, 0, inner);
                    assert(inner.ready().list =~= before.ready().list.skip(1));
                }
                self.inner = inner;
                Some(FairItem { item: given_back(item, place.kept), key: Ghost(q[0].0) })
            },
        }
    }

    fn put_prev_task(&mut self, item: Self::SchedItem, preempt: bool) {
        proof {
            use_type_invariant(&*self);
        }
        let mut inner = Placed::new();
        core::mem::swap(&mut inner, &mut self.inner);
        inner.make_room();
        let ghost before = inner;
        let ghost q = cfs_queue(inner.queue);
        let ghost x = (cfs_run_time(item.item.held()), item.item.held());
        let id = task_inner(&item.item);
        assert forall|i: int| 0 <= i < q.len() implies (#[trigger] q[i]).1.0 != id by {
            assert(old(self).ready().list[i].id == q[i].1.0);
        }
        let link = queue_put(&mut inner.queue, item.item, preempt);
        let ghost place = Place { link, kept: None };
        inner.places.insert(id, Place { link, kept: None });
        inner.count = inner.count + 1;
        proof {
            lemma_put(before, x, place, inner);
        }
        self.inner = inner;
    }

    fn task_tick(&mut self, item: Self::SchedItem) -> (Self::SchedItem, bool) {
        proof {
            use_type_invariant(&*self);
        }
        let mut inner = Placed::new();
        core::mem::swap(&mut inner, &mut self.inner);
        let (ticked, due) = queue_tick(&mut inner.queue, item.item);
        self.inner = inner;
        (FairItem { item: ticked, key: item.key }, due)
    }

    fn set_priority(&mut self, item: Self::SchedItem, prio: isize) -> (Self::SchedItem, bool) {
        proof {
            use_type_invariant(&*self);
        }
        let mut inner = Placed::new();
        core::mem::swap(&mut inner, &mut self.inner);
        let (set, ok) = queue_set_priority(&mut inner.queue, item.item, prio);
        self.inner = inner;
        (FairItem { item: set, key: item.key }, ok)
    }
}

/// The item of a task that leaves the queue, where `item` was: if one was kept aside, it starts from
/// there.
fn given_back(item: CfsItem, kept: Option<CfsItem>) -> (r: CfsItem)
    requires
        cfs_fits(item.held()),
    ensures
        r.held() == match kept {
            None => item.held(),
            Some(k) => cfs_started(Some(cfs_run_time(item.held())), k.held()).1,
        },
{
    match kept {
        None => item,
        Some(k) => restarted(item, k),
    }
}

/// A queue once an item of a task that was not in it has got its place.
proof fn lemma_put(
    before: Placed,
    x: (int, (usize, int, int, int, int)),
    place: Place,
    after: Placed,
)
    requires
        before.wf(),
        cfs_placed(cfs_queue(before.queue), x, cfs_queue(after.queue)),
        forall|i: int|
            0 <= i < cfs_queue(before.queue).len() ==> (#[trigger] cfs_queue(before.queue)[i]).1.0
                != x.1.0,
        after.places@ == before.places@.insert(x.1.0, place),
        in_place(x, after.places@),
        after.count == cfs_count(after.queue),
        after.count < isize::MAX,
        after.learned == (cfs_floor(after.queue) is Some),
        cfs_floor(after.queue) == cfs_floor(before.queue) || cfs_floor(after.queue) == cfs_least(
            cfs_queue(after.queue),
        ),
    ensures
        after.wf(),
        placed(before.ready().list, shown(x, after.places@), after.ready().list),
{
    let q = cfs_queue(before.queue);
    let a = cfs_queue(after.queue);
    let at = choose|at: int|
        {
            &&& 0 <= at <= q.len()
            &&& a == #[trigger] q.insert(at, x)
            &&& forall|i: int| 0 <= i < at ==> (#[trigger] q[i]).0 <= x.0
            &&& forall|i: int| at <= i < q.len() ==> (#[trigger] q[i]).0 > x.0
        };
    assert forall|i: int| 0 <= i < a.len() implies #[trigger] a[i] == if i < at {
        q[i]
    } else if i == at {
        x
    } else {
        q[i - 1]
    } by {
    }
    assert forall|i: int| 0 <= i < a.len() implies in_place(#[trigger] a[i], after.places@) by {
        if i < at {
            assert(in_place(q[i], before.places@));
        } else if i > at {
            assert(in_place(q[i - 1], before.places@));
        }
    }
    assert forall|id: usize| #[trigger] after.places@.contains_key(id) implies exists|i: int|
        0 <= i < a.len() && (#[trigger] a[i]).1.0 == id by {
        if id == x.1.0 {
            assert(a[at].1.0 == id);
        } else {
            assert(before.places@.contains_key(id));
            let j = choose|j: int| 0 <= j < q.len() && (#[trigger] q[j]).1.0 == id;
            let i = if j < at {
                j
            } else {
                j + 1
            };
            assert(a[i].1.0 == id);
        }
    }
    if a.len() > 0 {
        assert(in_place(a[0], after.places@));
        lemma_run_time(a[0].1);
    }
    let b = before.ready().list;
    let e = shown(x, after.places@);
    assert forall|i: int| 0 <= i < q.len() implies #[trigger] shown(q[i], after.places@) == b[i]
        && b[i].key == q[i].0 by {
    }
    assert(after.ready().list =~= b.insert(at, e));
    assert(e.key == x.0);
}

/// A run time that fits is no less than 0.
proof fn lemma_run_time(x: (usize, int, int, int, int))
    requires
        cfs_fits(x),
    ensures
        0 <= cfs_run_time(x) <= isize::MAX,
{
    lemma_charge(x.3, x.3, x.1, x.1);
}

/// The first task of a queue is queued under the least run time.
proof fn lemma_front(p: Placed)
    requires
        p.wf(),
    ensures
        cfs_least(cfs_queue(p.queue)) == least(p.ready().list),
{
}

/// A queue once an item and its place are gone.
proof fn lemma_taken(before: Placed, at: int, after: Placed)
    requires
        before.wf(),
        0 <= at < cfs_queue(before.queue).len(),
        cfs_queue(after.queue) == cfs_queue(before.queue).remove(at),
        after.places@ == before.places@.remove(cfs_queue(before.queue)[at].1.0),
        after.count == cfs_count(after.queue),
        after.count < isize::MAX,
        after.learned == (cfs_floor(after.queue) is Some),
        cfs_floor(after.queue) == cfs_floor(before.queue) || cfs_floor(after.queue) == cfs_least(
            cfs_queue(after.queue),
        ),
    ensures
        after.wf(),
        after.ready().list == before.ready().list.remove(at),
{
    let q = cfs_queue(before.queue);
    let a = cfs_queue(after.queue);
    assert forall|i: int| 0 <= i < a.len() implies #[trigger] a[i] == if i < at {
        q[i]
    } else {
        q[i + 1]
    } by {
    }
    assert forall|i: int| 0 <= i < a.len() implies in_place(#[trigger] a[i], after.places@) by {
        let j = if i < at {
            i
        } else {
            i + 1
        };
        assert(in_place(q[j], before.places@));
        assert(q[j].1.0 != q[at].1.0);
    }
    assert forall|id: usize| #[trigger] after.places@.contains_key(id) implies exists|i: int|
        0 <= i < a.len() && (#[trigger] a[i]).1.0 == id by {
        assert(before.places@.contains_key(id));
        let j = choose|j: int| 0 <= j < q.len() && (#[trigger] q[j]).1.0 == id;
        let i = if j < at {
            j
        } else {
            j - 1
        };
        assert(a[i].1.0 == id);
    }
    if a.len() > 0 {
        assert(in_place(a[0], after.places@));
        lemma_run_time(a[0].1);
    }
    assert forall|i: int| 0 <= i < a.len() implies shown(#[trigger] a[i], after.places@) == shown(
        a[i],
        before.places@,
    ) by {
        assert(in_place(a[i], after.places@));
    }
    assert(after.ready().list =~= before.ready().list.remove(at));
}

/// `after` is `before` without the task `id`; the others stay as they are, in the same order.
pub open spec fn lifted(before: Seq<Entry>, id: usize, after: Seq<Entry>) -> bool {
    exists|at: int|
        0 <= at < before.len() && before[at].id == id && after == #[trigger] before.remove(at)
}

impl RemovableScheduler for Fair {
    /// The task is taken out, and the others stay as they are. The next task to be added starts from the
    /// least run time of those that stay.
    open spec fn removes(before: Ready, id: usize, after: Ready) -> bool {
        &&& lifted(before.list, id, after.list)
        &&& after.floor == least(after.list)
    }

    proof fn removes_only(before: Ready, id: usize, after: Ready) {
        let b = Ready { floor: after.floor, ..before };
        let at = choose|at: int|
            0 <= at < before.list.len() && before.list[at].id == id && after.list
                == #[trigger] before.list.remove(at);
        assert(after.list == b.list.remove(at));
        assert(removed(b, id, after));
        assert forall|i: int, j: int| 0 <= i < j < b.list.len() implies (#[trigger] b.list[i]).id
            != (#[trigger] b.list[j]).id by {
            assert(before.list[i].id != before.list[j].id);
        }
        lemma_removed(b, id, after);
        assert forall|x: usize| #[trigger] listed(b, x) <==> listed(before, x) by {
            if listed(b, x) {
                let i = choose|i: int| 0 <= i < b.list.len() && (#[trigger] b.list[i]).id == x;
                assert(before.list[i].id == x);
            }
            if listed(before, x) {
                let i = choose|i: int|
                    0 <= i < before.list.len() && (#[trigger] before.list[i]).id == x;
                assert(b.list[i].id == x);
            }
        }
    }

    open spec fn can_remove(q: Ready, e: Entry) -> bool {
        forall|i: int|
            0 <= i < q.list.len() ==> fits(Entry { base: (#[trigger] q.list[i]).key, ..e })
    }

    proof fn can_remove_akin(q: Ready, e: Entry, x: Entry) {
        assert forall|i: int| 0 <= i < q.list.len() implies fits(
            Entry { base: (#[trigger] q.list[i]).key, ..x },
        ) by {
            assert(fits(Entry { base: q.list[i].key, ..e }));
        }
    }

    proof fn adds_can_remove(added: Entry, before: Ready, after: Ready, e: Entry) {
        let x = started(before.floor, added);
        let at = choose|at: int|
            {
                &&& 0 <= at <= before.list.len()
                &&& after.list == #[trigger] before.list.insert(at, x)
                &&& forall|i: int| 0 <= i < at ==> (#[trigger] before.list[i]).key <= x.key
                &&& forall|i: int| at <= i < before.list.len() ==> (#[trigger] before.list[i]).key > x.key
            };
        assert forall|i: int| 0 <= i < after.list.len() implies fits(
            Entry { base: (#[trigger] after.list[i]).key, ..e },
        ) by {
            if i < at {
                assert(after.list[i] == before.list[i]);
            } else if i > at {
                assert(after.list[i] == before.list[i - 1]);
            }
        }
    }

    proof fn removes_sound(before: Ready, id: usize, after: Ready, e: Entry) {
        let at = choose|at: int|
            0 <= at < before.list.len() && before.list[at].id == id && after.list
                == #[trigger] before.list.remove(at);
        if after.list.len() > 0 {
            let j: int = if at == 0 {
                1
            } else {
                0
            };
            assert(after.list[0] == before.list[j]);
            assert(fits(Entry { base: before.list[j].key, ..e }));
        }
    }

    fn remove_task(&mut self, id: usize) -> Self::SchedItem {
        proof {
            use_type_invariant(&*self);
        }
        let mut inner = Placed::new();
        core::mem::swap(&mut inner, &mut self.inner);
        let ghost before = inner;
        let ghost q = cfs_queue(inner.queue);
        let ghost list = inner.ready().list;
        let ghost i = choose|i: int| 0 <= i < list.len() && (#[trigger] list[i]).id == id;
        assert(in_place(q[i], before.places@));
        assert(q[i].1.0 == id);
        let place = inner.places.remove(&id).unwrap();
        assert(cfs_found(q, q[i].1));
        assert(cfs_holds(q, q[i].1));
        let item = queue_remove(&mut inner.queue, &place.link).unwrap();
        inner.learned = inner.places.len() > 0;
        proof {
            let at = choose|at: int|
                0 <= at < q.len() && q[at].1 == place.link.held() && cfs_queue(inner.queue)
                    == #[trigger] q.remove(at);
            assert(at == i);
            lemma_some_left(before, i, inner);
            lemma_taken(before, i, inner);
            lemma_front(inner);
            assert(list[i] == shown(q[i], before.places@));
        }
        self.inner = inner;
        FairItem { item: given_back(item, place.kept), key: Ghost(q[i].0) }
    }
}

/// A queue has items as long as it has places.
proof fn lemma_some_left(before: Placed, at: int, after: Placed)
    requires
        before.wf(),
        0 <= at < cfs_queue(before.queue).len(),
        cfs_queue(after.queue) == cfs_queue(before.queue).remove(at),
        after.places@ == before.places@.remove(cfs_queue(before.queue)[at].1.0),
    ensures
        after.places@.dom().len() > 0 <==> cfs_queue(after.queue).len() > 0,
{
    let q = cfs_queue(before.queue);
    let a = cfs_queue(after.queue);
    if a.len() > 0 {
        let j: int = if at == 0 {
            1
        } else {
            0
        };
        assert(in_place(q[j], before.places@));
        assert(q[j].1.0 != q[at].1.0);
        assert(after.places@.dom().contains(q[j].1.0));
        if after.places@.dom().len() == 0 {
            assert(after.places@.dom() =~= Set::<usize>::empty());
        }
    } else {
        assert forall|id: usize| !#[trigger] after.places@.dom().contains(id) by {
            if after.places@.contains_key(id) {
                assert(before.places@.contains_key(id));
                let j = choose|j: int| 0 <= j < q.len() && (#[trigger] q[j]).1.0 == id;
                assert(j == at);
            }
        }
        assert(after.places@.dom() =~= Set::<usize>::empty());
    }
}

} // verus!
