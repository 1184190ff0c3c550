//! The scan engine's bookkeeping: which work is admitted, which is in
//! flight, which has published its result, and when the stream ends.
//!
//! The caller performs each admitted connect under its deadline and reports
//! the outcome back; the engine turns it into the item's one result.
use vstd::prelude::*;
use crate::limits::ConcurrencyBudget;
use crate::target::{ScanError, ScanItem};

verus! {

/// One item's result: host, port, and whether the port is open.
pub type ScanResult = (u32, u16, bool);

/// How a connect attempt ended.
#[derive(Debug, Clone, Copy, PartialEq, Eq, Structural)]
pub enum ConnectOutcome {
    /// The connection was established within the deadline.
    Connected,
    /// The peer refused or reset the connection.
    Refused,
    /// The deadline passed first.
    TimedOut,
    /// Any other error.
    Failed,
}

/// A port is open exactly when the connect succeeded within its deadline.
pub open spec fn is_open(outcome: ConnectOutcome) -> bool {
    outcome == ConnectOutcome::Connected
}

/// Whether a connect outcome marks the port open.
pub fn classify_connect(outcome: ConnectOutcome) -> (r: bool)
    ensures
        r == is_open(outcome),
{
    match outcome {
        ConnectOutcome::Connected => true,
        _ => false,
    }
}

/// The result of one item from its connect outcome.
pub fn scan_result(item: ScanItem, outcome: ConnectOutcome) -> (r: ScanResult)
    ensures
        r == (item.0, item.1, is_open(outcome)),
{
    (item.0, item.1, classify_connect(outcome))
}

/// Number of `true` entries.
pub open spec fn count_true(s: Seq<bool>) -> nat
    decreases s.len(),
{
    if s.len() == 0 {
        0
    } else {
        count_true(s.drop_last()) + if s.last() {
            1nat
        } else {
            0nat
        }
    }
}

proof fn lemma_count_update(s: Seq<bool>, k: int)
    requires
        0 <= k < s.len(),
        !s[k],
    ensures
        count_true(s.update(k, true)) == count_true(s) + 1,
    decreases s.len(),
{
    let t = s.update(k, true);
    if k == s.len() - 1 {
        assert(t.drop_last() =~= s.drop_last());
    } else {
        assert(t.drop_last() =~= s.drop_last().update(k, true));
        lemma_count_update(s.drop_last(), k);
    }
}

proof fn lemma_count_bound(s: Seq<bool>, n: int)
    requires
        0 <= n,
        forall|i: int| n <= i < s.len() ==> !#[trigger] s[i],
    ensures
        count_true(s) <= s.len(),
        count_true(s) <= n,
    decreases s.len(),
{
    if s.len() > 0 {
        lemma_count_bound(s.drop_last(), n);
    }
}

proof fn lemma_count_full(s: Seq<bool>)
    requires
        count_true(s) == s.len(),
    ensures
        forall|i: int| 0 <= i < s.len() ==> #[trigger] s[i],
    decreases s.len(),
{
    if s.len() > 0 {
        lemma_count_bound(s.drop_last(), s.len() - 1);
        lemma_count_full(s.drop_last());
        assert forall|i: int| 0 <= i < s.len() implies #[trigger] s[i] by {
            if i < s.len() - 1 {
                assert(s.drop_last()[i] == s[i]);
            }
        }
    }
}

/// The engine's state as mathematics.
pub struct EngineView {
    /// The work, in submission order.
    pub items: Seq<ScanItem>,
    /// The admission limit.
    pub max_in_flight: nat,
    /// Items `0..dispatched` have been admitted.
    pub dispatched: nat,
    /// Whether each item has published its result.
    pub done: Seq<bool>,
    /// Admitted items whose result is not yet published.
    pub in_flight: nat,
    /// Results published so far.
    pub published: nat,
    /// The indices of the published items, in publication order.
    pub order: Seq<usize>,
}

/// Admission and completion bookkeeping for one scan.
pub struct ScanEngine {
    items: Vec<ScanItem>,
    max_in_flight: usize,
    next: usize,
    in_flight: usize,
    published: usize,
    done: Vec<bool>,
    order: Ghost<Seq<usize>>,
}

impl View for ScanEngine {
    type V = EngineView;

    closed spec fn view(&self) -> EngineView {
        EngineView {
            items: self.items@,
            max_in_flight: self.max_in_flight as nat,
            dispatched: self.next as nat,
            done: self.done@,
            in_flight: self.in_flight as nat,
            published: self.published as nat,
            order: self.order@,
        }
    }
}

impl EngineView {
    /// Item `i` has been admitted and has not yet published.
    pub open spec fn is_in_flight(&self, i: int) -> bool {
        0 <= i < self.dispatched && !self.done[i]
    }

    /// Steps left before the stream ends: each item still to dispatch
    /// needs a dispatch and a completion, each item in flight a completion.
    pub open spec fn remaining_steps(&self) -> nat {
        (2 * (self.items.len() - self.dispatched) + self.in_flight) as nat
    }

    /// Every item has published: the stream is over.
    pub open spec fn finished(&self) -> bool {
        self.published == self.items.len()
    }

    /// The bookkeeping is consistent: admitted items are a prefix, each
    /// admitted item is in flight or published, the admission limit holds,
    /// and the published count is the number of published items.
    pub open spec fn wf(&self) -> bool {
        &&& self.max_in_flight >= 1
        &&& self.dispatched <= self.items.len()
        &&& self.done.len() == self.items.len()
        &&& forall|i: int| self.dispatched <= i < self.items.len() ==> !#[trigger] self.done[i]
        &&& self.published == count_true(self.done)
        &&& self.in_flight + self.published == self.dispatched
        &&& self.in_flight <= self.max_in_flight
        &&& self.order.len() == self.published
        &&& self.order.no_duplicates()
        &&& forall|k: int|
            0 <= k < self.order.len() ==> #[trigger] self.order[k] < self.items.len()
                && self.done[self.order[k] as int]
        &&& forall|i: int| 0 <= i < self.done.len() && #[trigger] self.done[i] ==> self.order.contains(
            i as usize,
        )
    }
}

impl ScanEngine {
    /// The bookkeeping invariant.
    pub open spec fn wf(&self) -> bool {
        self@.wf()
    }

    /// An engine for `items` under `budget`; an empty work sequence is
    /// refused before anything is admitted.
    pub fn new(items: Vec<ScanItem>, budget: &ConcurrencyBudget) -> (r: Result<ScanEngine, ScanError>)
        requires
            budget.wf(),
        ensures
            items@.len() == 0 <==> r == Err::<ScanEngine, ScanError>(ScanError::EmptyTargetSet),
            items@.len() > 0 <==> r is Ok,
            r matches Ok(e) ==> {
                &&& e.wf()
                &&& e@.items == items@
                &&& e@.max_in_flight == budget.max_in_flight
                &&& e@.dispatched == 0
                &&& e@.published == 0
                &&& e@.order == Seq::<usize>::empty()
            },
    {
        if items.len() == 0 {
            return Err(ScanError::EmptyTargetSet);
        }
        let mut done: Vec<bool> = Vec::new();
        let mut i: usize = 0;
        while i < items.len()
            invariant
                i <= items@.len(),
                done@.len() == i,
                forall|k: int| 0 <= k < i ==> !#[trigger] done@[k],
            decreases items@.len() - i,
        {
            done.push(false);
            i = i + 1;
        }
        proof {
            lemma_count_bound(done@, 0);
        }
        Ok(ScanEngine {
            items,
            max_in_flight: budget.max_in_flight,
            next: 0,
            in_flight: 0,
            published: 0,
            done,
            order: Ghost(Seq::empty()),
        })
    }

    /// The advertised number of results: one per item.
    pub fn total(&self) -> (r: usize)
        ensures
            r == self@.items.len(),
    {
        self.items.len()
    }

    /// Items admitted and not yet published.
    pub fn in_flight(&self) -> (r: usize)
        ensures
            r == self@.in_flight,
    {
        self.in_flight
    }

    /// Whether every item has published, so the stream can be closed.
    pub fn is_finished(&self) -> (r: bool)
        ensures
            r == self@.finished(),
    {
        self.published == self.items.len()
    }

    /// Admits the next item when a slot is free: returns its index and the
    /// item, in submission order. Returns `None` when all slots are taken or
    /// every item has been admitted.
    pub fn dispatch(&mut self) -> (r: Option<(usize, ScanItem)>)
        requires
            old(self).wf(),
        ensures
            final(self).wf(),
            final(self)@.items == old(self)@.items,
            final(self)@.max_in_flight == old(self)@.max_in_flight,
            final(self)@.done == old(self)@.done,
            final(self)@.published == old(self)@.published,
            final(self)@.order == old(self)@.order,
            r is Some ==> final(self)@.remaining_steps() < old(self)@.remaining_steps(),
            ({
                let s = old(self)@;
                if s.in_flight < s.max_in_flight && s.dispatched < s.items.len() {
                    &&& r == Some((s.dispatched as usize, s.items[s.dispatched as int]))
                    &&& final(self)@.dispatched == s.dispatched + 1
                    &&& final(self)@.in_flight == s.in_flight + 1
                } else {
                    &&& r is None
                    &&& final(self)@ == s
                }
            }),
    {
        if self.in_flight < self.max_in_flight && self.next < self.items.len() {
            let index = self.next;
            let item = self.items[index];
            self.next = self.next + 1;
            self.in_flight = self.in_flight + 1;
            Some((index, item))
        } else {
            None
        }
    }

    /// Records the connect outcome of item `index` and returns its result.
    /// Only an item in flight publishes, and only once: any other index
    /// gives `None` and changes nothing.
    pub fn complete(&mut self, index: usize, outcome: ConnectOutcome) -> (r: Option<ScanResult>)
        requires
            old(self).wf(),
        ensures
            final(self).wf(),
            final(self)@.items == old(self)@.items,
            final(self)@.max_in_flight == old(self)@.max_in_flight,
            final(self)@.dispatched == old(self)@.dispatched,
            r is Some ==> final(self)@.remaining_steps() < old(self)@.remaining_steps(),
            ({
                let s = old(self)@;
                if s.is_in_flight(index as int) {
                    let item = s.items[index as int];
                    &&& r == Some((item.0, item.1, is_open(outcome)))
                    &&& final(self)@.done == s.done.update(index as int, true)
                    &&& final(self)@.published == s.published + 1
                    &&& final(self)@.in_flight == s.in_flight - 1
                    &&& final(self)@.order == s.order.push(index)
                } else {
                    &&& r is None
                    &&& final(self)@ == s
                }
            }),
    {
        if index < self.next && !self.done[index] {
            proof {
                lemma_count_update(self.done@, index as int);
                lemma_count_bound(self.done@.update(index as int, true), self.next as int);
            }
            let item = self.items[index];
            proof {
                if self.order@.contains(index) {
                    let k = choose|k: int| 0 <= k < self.order@.len() && self.order@[k] == index;
                    assert(self.done@[self.order@[k] as int]);
                }
            }
            let ghost old_done = self.done@;
            let ghost old_order = self.order@;
            self.done.set(index, true);
            self.order = Ghost(self.order@.push(index));
            proof {
                let o = self.order@;
                assert forall|i: int| 0 <= i < self.done@.len() && #[trigger] self.done@[i] implies o.contains(
                    i as usize,
                ) by {
                    if i == index as int {
                        assert(o[o.len() - 1] == index);
                    } else {
                        assert(old_done[i]);
                        assert(old_order.contains(i as usize));
                        let k = choose|k: int| 0 <= k < old_order.len() && old_order[k] == i as usize;
                        assert(o[k] == i as usize);
                    }
                }
            }
            self.published = self.published + 1;
            self.in_flight = self.in_flight - 1;
            Some(scan_result(item, outcome))
        } else {
            None
        }
    }
}

/// When the stream ends, every item has published exactly one result and
/// the number of results equals the advertised total: an item publishes
/// only while in flight, and publishing takes it out of flight for good.
pub proof fn every_item_yields_one_result(e: EngineView)
    requires
        e.wf(),
        e.finished(),
    ensures
        e.published == e.items.len(),
        e.in_flight == 0,
        forall|i: int| 0 <= i < e.items.len() ==> #[trigger] e.done[i] && !e.is_in_flight(i),
{
    lemma_count_bound(e.done, e.dispatched as int);
    lemma_count_full(e.done);
}

/// When the stream ends, the publication order lists every item index
/// exactly once: the results are a permutation of the work, with no item
/// dropped and none repeated.
pub proof fn results_are_a_permutation_of_work(e: EngineView)
    requires
        e.wf(),
        e.finished(),
    ensures
        e.order.len() == e.items.len(),
        e.order.no_duplicates(),
        forall|i: int| 0 <= i < e.items.len() ==> #[trigger] e.order.contains(i as usize),
{
    every_item_yields_one_result(e);
    assert forall|i: int| 0 <= i < e.items.len() implies #[trigger] e.order.contains(i as usize) by {
        assert(e.done[i]);
    }
}

/// The stream ends exactly when no steps are left; each dispatch and each
/// completion that returns a value takes one step off, so a run that keeps
/// feeding outcomes back ends after at most twice as many steps as items.
pub proof fn stream_ends_when_no_steps_remain(e: EngineView)
    requires
        e.wf(),
    ensures
        e.finished() <==> e.remaining_steps() == 0,
        e.remaining_steps() <= 2 * e.items.len(),
{
    lemma_count_bound(e.done, e.dispatched as int);
    if e.finished() {
        assert(e.dispatched == e.items.len());
    }
}

/// Until the stream ends, the engine can always move: either some item is
/// in flight and will publish, or a slot is free for the next item.
pub proof fn unfinished_engine_can_progress(e: EngineView)
    requires
        e.wf(),
        !e.finished(),
    ensures
        e.in_flight > 0 || (e.dispatched < e.items.len() && e.in_flight < e.max_in_flight),
{
}

} // verus!
