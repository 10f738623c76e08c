//! A clock that only moves when it is told to.
//!
//! Times are nanoseconds since the clock was made. A sleeper is known by its
//! number; whoever waits for it is woken when an advance reaches its deadline.

use std::collections::HashMap;
use vstd::prelude::*;

verus! {

broadcast use {vstd::seq::group_seq_axioms, vstd::std_specs::hash::group_hash_axioms};

/// The longest time that a clock can show: `u64::MAX` seconds and 999 999 999
/// nanoseconds.
pub const MAX_TIME: u128 = 18_446_744_073_709_551_615_999_999_999;

/// A sleeper: when it ends, and whether somebody waits to be woken.
#[derive(Debug, Clone, Copy, PartialEq, Eq, Structural)]
pub struct Sleeper {
    pub deadline: u128,
    pub armed: bool,
}

/// A clock whose time moves on [`ManualClock::advance`] and
/// [`ManualClock::set`] alone.
pub struct ManualClock {
    now: u128,
    next_id: u64,
    sleepers: HashMap<u64, Sleeper>,
}

/// What a clock holds.
pub struct ClockView {
    pub now: u128,
    pub next_id: u64,
    pub sleepers: Map<u64, Sleeper>,
}

/// The sleeper is woken when the clock shows `now`.
pub open spec fn due(sleepers: Map<u64, Sleeper>, now: u128, id: u64) -> bool {
    sleepers.contains_key(id) && sleepers[id].armed && sleepers[id].deadline <= now
}

/// The sleepers once those that are due were woken.
pub open spec fn after_waking(sleepers: Map<u64, Sleeper>, now: u128) -> Map<u64, Sleeper> {
    Map::new(
        |id: u64| sleepers.contains_key(id),
        |id: u64|
            if due(sleepers, now, id) {
                Sleeper { deadline: sleepers[id].deadline, armed: false }
            } else {
                sleepers[id]
            },
    )
}

/// The list names each sleeper that is due once, and no other.
pub open spec fn wakes(list: Seq<u64>, sleepers: Map<u64, Sleeper>, now: u128) -> bool {
    &&& list.no_duplicates()
    &&& forall|id: u64| #[trigger] list.contains(id) <==> due(sleepers, now, id)
}

proof fn lemma_push_contains(list: Seq<u64>, last: u64, k: u64)
    requires
        k != last,
    ensures
        list.push(last).contains(k) <==> list.contains(k),
{
    let longer = list.push(last);
    if list.contains(k) {
        assert(longer[list.index_of(k)] == k);
    }
    if longer.contains(k) {
        assert(list[longer.index_of(k)] == k);
    }
}

impl View for ManualClock {
    type V = ClockView;

    closed spec fn view(&self) -> ClockView {
        ClockView { now: self.now, next_id: self.next_id, sleepers: self.sleepers@ }
    }
}

impl ClockView {
    /// Every sleeper has a number that was given out, and the time is one that
    /// the clock can show.
    pub open spec fn wf(&self) -> bool {
        &&& self.now <= MAX_TIME
        &&& self.sleepers.dom().finite()
        &&& forall|id: u64| #[trigger] self.sleepers.contains_key(id) ==> id < self.next_id
    }
}

impl ManualClock {
    pub fn new() -> (r: Self)
        ensures
            r@ == (ClockView { now: 0, next_id: 0, sleepers: Map::empty() }),
            r@.wf(),
    {
        let r = ManualClock { now: 0, next_id: 0, sleepers: HashMap::new() };
        assert(r@.sleepers =~= Map::empty());
        r
    }

    pub fn now(&self) -> (r: u128)
        ensures
            r == self@.now,
    {
        self.now
    }

    /// The number of sleepers that have neither ended nor been dropped.
    pub fn sleeper_count(&self) -> (r: usize)
        ensures
            r == self@.sleepers.len(),
    {
        self.sleepers.len()
    }

    /// The numbers of the sleepers, in no particular order.
    fn ids(&self) -> (r: Vec<u64>)
        ensures
            r@.no_duplicates(),
            forall|k: u64| #[trigger] r@.contains(k) <==> self.sleepers@.contains_key(k),
    {
        let mut ids: Vec<u64> = Vec::new();
        for id in it: self.sleepers.keys()
            invariant
                ids@.len() == it.index(),
                forall|k: int| 0 <= k < ids@.len() ==> ids@[k] == *it.seq()[k],
        {
            ids.push(*id);
        }
        proof {
            let seen = vstd::std_specs::hash::spec_keys_iter(&self.sleepers);
            let keys = vstd::std_specs::iter::IteratorSpec::remaining(&seen);
            assert(ids@ =~= keys.unref());
            assert forall|i: int, j: int|
                0 <= i < ids@.len() && 0 <= j < ids@.len() && i != j implies ids@[i]
                != ids@[j] by {
                assert(keys[i] != keys[j]);
            }
            assert forall|k: u64| #[trigger] ids@.contains(k) <==> self.sleepers@.contains_key(
                k,
            ) by {
                assert(ids@.to_set().contains(k) <==> ids@.contains(k));
            }
        }
        ids
    }

    /// Move the clock forward. The result names the sleepers to wake.
    pub fn advance(&mut self, d: u128) -> (r: Vec<u64>)
        requires
            old(self)@.wf(),
            old(self)@.now + d <= MAX_TIME,
        ensures
            final(self)@.wf(),
            final(self)@.now == old(self)@.now + d,
            final(self)@.next_id == old(self)@.next_id,
            final(self)@.sleepers == after_waking(old(self)@.sleepers, final(self)@.now),
            wakes(r@, old(self)@.sleepers, final(self)@.now),
    {
        self.now = self.now + d;
        let now: u128 = self.now;
        let ghost before = self.sleepers@;
        let ids = self.ids();
        let mut list: Vec<u64> = Vec::new();
        let mut j: usize = 0;
        while j < ids.len()
            invariant
                j <= ids.len(),
                self.sleepers@ == before,
                self.now == now,
                self.now == old(self)@.now + d,
                self.next_id == old(self)@.next_id,
                old(self)@.sleepers == before,
                ids@.no_duplicates(),
                forall|k: u64| #[trigger] ids@.contains(k) <==> before.contains_key(k),
                list@.no_duplicates(),
                forall|k: u64| #[trigger]
                    list@.contains(k) <==> due(before, now, k) && ids@.take(j as int).contains(k),
            decreases ids.len() - j,
        {
            let id: u64 = ids[j];
            let ghost earlier = list@;
            let ghost head = ids@.take(j as int);
            let ghost longer = ids@.take(j + 1);
            assert(ids@.contains(id));
            assert(longer =~= head.push(id));
            assert(!head.contains(id)) by {
                if head.contains(id) {
                    let k = head.index_of(id);
                    assert(ids@[k] == ids@[j as int]);
                }
            }
            match self.sleepers.get(&id) {
                Some(sleeper) => {
                    if sleeper.armed && sleeper.deadline <= now {
                        assert(!list@.contains(id));
                        list.push(id);
                    }
                },
                None => {},
            }
            proof {
                assert forall|k: u64| #[trigger] list@.contains(k) <==> due(before, now, k)
                    && longer.contains(k) by {
                    if k == id {
                        assert(longer[j as int] == id);
                        if due(before, now, id) {
                            assert(list@[earlier.len() as int] == id);
                        }
                    } else {
                        lemma_push_contains(head, id, k);
                        if list@ != earlier {
                            lemma_push_contains(earlier, id, k);
                            assert(list@ =~= earlier.push(id));
                        }
                        assert(earlier.contains(k) <==> due(before, now, k) && head.contains(k));
                    }
                }
            }
            j += 1;
        }
        proof {
            assert(ids@.take(ids@.len() as int) =~= ids@);
            assert forall|k: u64| #[trigger] list@.contains(k) <==> due(before, now, k) by {
                assert(ids@.contains(k) <==> before.contains_key(k));
            }
        }
        let mut i: usize = 0;
        while i < list.len()
            invariant
                i <= list.len(),
                self.now == now,
                self.now == old(self)@.now + d,
                self.next_id == old(self)@.next_id,
                old(self)@.sleepers == before,
                wakes(list@, before, now),
                self.sleepers@.dom() == before.dom(),
                forall|k: u64| #[trigger]
                    before.contains_key(k) ==> self.sleepers@[k] == if list@.take(
                        i as int,
                    ).contains(k) {
                        Sleeper { deadline: before[k].deadline, armed: false }
                    } else {
                        before[k]
                    },
            decreases list.len() - i,
        {
            let id: u64 = list[i];
            assert(list@.contains(id));
            assert(before.contains_key(id));
            let ghost mid = self.sleepers@;
            let ghost head = list@.take(i as int);
            let ghost longer = list@.take(i + 1);
            assert(longer =~= head.push(id));
            assert(!head.contains(id)) by {
                if head.contains(id) {
                    let j = head.index_of(id);
                    assert(list@[j] == list@[i as int]);
                }
            }
            assert(mid.contains_key(id));
            let sleeper: Option<Sleeper> = match self.sleepers.get(&id) {
                Some(s) => Some(*s),
                None => None,
            };
            match sleeper {
                Some(s) => {
                    self.sleepers.insert(id, Sleeper { deadline: s.deadline, armed: false });
                },
                None => {},
            }
            proof {
                assert(self.sleepers@.dom() =~= before.dom());
                assert forall|k: u64| #[trigger] before.contains_key(k) implies self.sleepers@[k]
                    == if longer.contains(k) {
                    Sleeper { deadline: before[k].deadline, armed: false }
                } else {
                    before[k]
                } by {
                    if k == id {
                        assert(longer[i as int] == id);
                    } else {
                        if head.contains(k) {
                            let j = head.index_of(k);
                            assert(longer[j] == k);
                        }
                        if longer.contains(k) {
                            let j = longer.index_of(k);
                            assert(head[j] == k);
                        }
                    }
                }
            }
            i += 1;
        }
        proof {
            assert(list@.take(list@.len() as int) =~= list@);
            assert forall|k: u64| #[trigger] before.contains_key(k) implies self.sleepers@[k]
                == after_waking(before, now)[k] by {
                assert(list@.contains(k) <==> due(before, now, k));
            }
            assert(self.sleepers@ =~= after_waking(before, now));
        }
        list
    }

    /// Move the clock to `t`, unless it is there or past it. The result names
    /// the sleepers to wake.
    pub fn set(&mut self, t: u128) -> (r: Vec<u64>)
        requires
            old(self)@.wf(),
            t <= MAX_TIME,
        ensures
            final(self)@.wf(),
            final(self)@.next_id == old(self)@.next_id,
            t <= old(self)@.now ==> final(self)@ == old(self)@ && r@.len() == 0,
            t > old(self)@.now ==> {
                &&& final(self)@.now == t
                &&& final(self)@.sleepers == after_waking(old(self)@.sleepers, t)
                &&& wakes(r@, old(self)@.sleepers, t)
            },
    {
        let cur: u128 = self.now;
        if t > cur {
            self.advance(t - cur)
        } else {
            Vec::new()
        }
    }

    /// The number that the next sleeper gets.
    pub fn next_sleeper(&self) -> (r: u64)
        ensures
            r == self@.next_id,
    {
        self.next_id
    }

    /// Begin a sleep. The result is the sleeper's number and its deadline.
    pub fn sleep(&mut self, duration: u128) -> (r: (u64, u128))
        requires
            old(self)@.wf(),
            old(self)@.now + duration <= MAX_TIME,
            old(self)@.next_id < u64::MAX,
        ensures
            final(self)@.wf(),
            r.0 == old(self)@.next_id,
            r.1 == old(self)@.now + duration,
            final(self)@ == (ClockView {
                now: old(self)@.now,
                next_id: (old(self)@.next_id + 1) as u64,
                sleepers: old(self)@.sleepers.insert(
                    r.0,
                    Sleeper { deadline: r.1, armed: false },
                ),
            }),
    {
        let id: u64 = self.next_id;
        self.next_id = id + 1;
        let deadline: u128 = self.now + duration;
        self.sleepers.insert(id, Sleeper { deadline, armed: false });
        (id, deadline)
    }

    /// Poll a sleep: ready exactly when the clock has reached its deadline, and
    /// it then ends; otherwise it is armed.
    pub fn poll_sleep(&mut self, id: u64, deadline: u128) -> (ready: bool)
        requires
            old(self)@.wf(),
        ensures
            final(self)@.wf(),
            ready == (old(self)@.now >= deadline),
            final(self)@.now == old(self)@.now,
            final(self)@.next_id == old(self)@.next_id,
            final(self)@.sleepers == if ready {
                old(self)@.sleepers.remove(id)
            } else if old(self)@.sleepers.contains_key(id) {
                old(self)@.sleepers.insert(
                    id,
                    Sleeper { deadline: old(self)@.sleepers[id].deadline, armed: true },
                )
            } else {
                old(self)@.sleepers
            },
    {
        if self.now >= deadline {
            self.sleepers.remove(&id);
            assert(self@.sleepers =~= old(self)@.sleepers.remove(id));
            true
        } else {
            let sleeper: Option<Sleeper> = match self.sleepers.get(&id) {
                Some(s) => Some(*s),
                None => None,
            };
            match sleeper {
                Some(s) => {
                    self.sleepers.insert(id, Sleeper { deadline: s.deadline, armed: true });
                },
                None => {},
            }
            false
        }
    }

    /// A sleep was dropped.
    pub fn drop_sleep(&mut self, id: u64)
        requires
            old(self)@.wf(),
        ensures
            final(self)@.wf(),
            final(self)@ == (ClockView {
                sleepers: old(self)@.sleepers.remove(id),
                ..old(self)@
            }),
    {
        self.sleepers.remove(&id);
        assert(self@.sleepers =~= old(self)@.sleepers.remove(id));
    }
}

// ---------- laws ----------

/// A sleeper that was woken is not woken again until it is polled again.
pub proof fn nobody_is_woken_twice(sleepers: Map<u64, Sleeper>, now: u128, later: u128, id: u64)
    requires
        due(sleepers, now, id),
    ensures
        !due(after_waking(sleepers, now), later, id),
{
}

/// No advance is missed: a sleeper that waits is woken by the first advance
/// that reaches its deadline, however many stop short of it.
pub proof fn waiting_sleepers_are_woken_in_time(
    sleepers: Map<u64, Sleeper>,
    before: u128,
    now: u128,
    id: u64,
)
    requires
        sleepers.contains_key(id),
        sleepers[id].armed,
        before < sleepers[id].deadline <= now,
    ensures
        !due(sleepers, before, id),
        due(after_waking(sleepers, before), now, id),
{
}

/// A sleeper is woken exactly when it waits and its deadline has come; waking
/// changes no deadline, forgets nobody, and leaves the others waiting.
pub proof fn waking_touches_only_who_is_due(
    sleepers: Map<u64, Sleeper>,
    now: u128,
    id: u64,
)
    ensures
        due(sleepers, now, id) <==> sleepers.contains_key(id) && sleepers[id].armed
            && sleepers[id].deadline <= now,
        after_waking(sleepers, now).contains_key(id) <==> sleepers.contains_key(id),
        sleepers.contains_key(id) ==> after_waking(sleepers, now)[id].deadline
            == sleepers[id].deadline,
        sleepers.contains_key(id) && !due(sleepers, now, id) ==> after_waking(sleepers, now)[id]
            == sleepers[id],
{
}

/// Those who are woken are those who are due, each of them once.
pub proof fn everyone_due_is_woken_once(
    list: Seq<u64>,
    sleepers: Map<u64, Sleeper>,
    now: u128,
    id: u64,
    i: int,
    j: int,
)
    requires
        wakes(list, sleepers, now),
        0 <= i < j < list.len(),
    ensures
        list.contains(id) <==> sleepers.contains_key(id) && sleepers[id].armed
            && sleepers[id].deadline <= now,
        list[i] != list[j],
{
}

} // verus!
