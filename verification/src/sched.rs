//! A seeded scheduler that decides which unfinished task runs next.
//!
//! Each step picks one unfinished task; whoever drives the scheduler polls that
//! task and reports when it is done. The interleaving follows from the seed, so
//! a failure can be run again.

use rand_chacha::ChaCha8Rng;
use vstd::prelude::*;

use crate::chance::{chacha_below, seeded_chacha};

verus! {

broadcast use vstd::seq::group_seq_axioms;

/// How many polls a run makes before it counts as stuck.
pub const POLL_BUDGET: usize = 5_000_000;

/// Tasks by number, and the generator that picks among them.
pub struct DeterministicScheduler {
    tasks: Vec<bool>,
    rng: ChaCha8Rng,
}

/// What the driver does next.
#[derive(Debug, Clone, Copy, PartialEq, Eq, Structural)]
pub enum Step {
    /// Poll the task of this number.
    Poll(usize),
    /// Stop; tells whether every task is done.
    Stop(bool),
}

/// The numbers of the unfinished tasks among the first `n`, in order.
pub open spec fn unfinished_upto(live: Seq<bool>, n: nat) -> Seq<int>
    decreases n,
{
    if n == 0 {
        Seq::empty()
    } else if live[n - 1] {
        unfinished_upto(live, (n - 1) as nat).push(n - 1)
    } else {
        unfinished_upto(live, (n - 1) as nat)
    }
}

/// The numbers of the unfinished tasks, in order.
pub open spec fn unfinished(live: Seq<bool>) -> Seq<int> {
    unfinished_upto(live, live.len())
}

/// No task is left.
pub open spec fn all_done(live: Seq<bool>) -> bool {
    forall|i: int| 0 <= i < live.len() ==> !(#[trigger] live[i])
}

proof fn lemma_unfinished(live: Seq<bool>, n: nat)
    requires
        n <= live.len(),
    ensures
        forall|k: int|
            0 <= k < unfinished_upto(live, n).len() ==> 0 <= #[trigger] unfinished_upto(live, n)[k]
                < n && live[unfinished_upto(live, n)[k]],
        forall|i: int|
            0 <= i < n && #[trigger] live[i] ==> unfinished_upto(live, n).contains(i),
    decreases n,
{
    if n > 0 {
        let before = unfinished_upto(live, (n - 1) as nat);
        lemma_unfinished(live, (n - 1) as nat);
        assert forall|i: int| 0 <= i < n && #[trigger] live[i] implies unfinished_upto(
            live,
            n,
        ).contains(i) by {
            if i < n - 1 {
                let k = before.index_of(i);
                assert(unfinished_upto(live, n)[k] == i);
            } else {
                assert(unfinished_upto(live, n).last() == i);
            }
        }
    }
}

/// What a run does next that may still make `left` polls, and the words that are
/// left to draw from.
pub open spec fn stepped(live: Seq<bool>, words: Map<nat, u32>, left: nat) -> (
    Step,
    Map<nat, u32>,
) {
    let tasks = unfinished(live);
    if tasks.len() == 0 {
        (Step::Stop(true), words)
    } else if left == 0 {
        (Step::Stop(false), words)
    } else {
        let (draw, rest) = crate::chance::range_drawn(words, tasks.len());
        (Step::Poll(tasks[draw as int] as usize), rest)
    }
}

impl DeterministicScheduler {
    /// Which tasks are unfinished, by number.
    pub closed spec fn live(&self) -> Seq<bool> {
        self.tasks@
    }

    /// The words that the scheduler has still to draw from.
    pub closed spec fn words(&self) -> Map<nat, u32> {
        crate::chance::chacha8_words(self.rng)
    }

    pub fn new(seed: u64) -> (r: Self)
        ensures
            r.live().len() == 0,
            r.words() == crate::chance::chacha8_seeded(seed),
    {
        DeterministicScheduler { tasks: Vec::new(), rng: seeded_chacha(seed) }
    }

    /// Add a task and return its number.
    pub fn spawn(&mut self) -> (r: usize)
        ensures
            final(self).live() == old(self).live().push(true),
            final(self).words() == old(self).words(),
            r == old(self).live().len(),
    {
        self.tasks.push(true);
        self.tasks.len() - 1
    }

    /// A task is done.
    pub fn finish(&mut self, task: usize)
        requires
            task < old(self).live().len(),
        ensures
            final(self).live() == old(self).live().update(task as int, false),
            final(self).words() == old(self).words(),
    {
        self.tasks.set(task, false);
    }

    /// The numbers of the unfinished tasks, in order.
    pub fn unfinished_tasks(&self) -> (r: Vec<usize>)
        ensures
            r@.map_values(|i: usize| i as int) == unfinished(self.live()),
    {
        let mut out: Vec<usize> = Vec::new();
        let mut i: usize = 0;
        assert(out@.map_values(|i: usize| i as int) =~= Seq::<int>::empty());
        while i < self.tasks.len()
            invariant
                i <= self.tasks.len(),
                out@.map_values(|i: usize| i as int) == unfinished_upto(self.live(), i as nat),
            decreases self.tasks.len() - i,
        {
            let ghost before = out@;
            if self.tasks[i] {
                out.push(i);
                assert(out@.map_values(|i: usize| i as int) =~= before.map_values(
                    |i: usize| i as int,
                ).push(i as int));
            }
            i += 1;
        }
        out
    }

    /// What a run with `left` polls to go does next, when the generator drew
    /// `draw` among the unfinished tasks.
    pub fn choose_step(&self, left: usize, draw: usize) -> (r: Step)
        requires
            left > 0 && unfinished(self.live()).len() > 0 ==> draw < unfinished(self.live()).len(),
        ensures
            match r {
                Step::Poll(task) => left > 0 && unfinished(self.live()).len() > 0 && task
                    == unfinished(self.live())[draw as int],
                Step::Stop(done) => (left == 0 || all_done(self.live())) && done == all_done(
                    self.live(),
                ),
            },
    {
        let tasks = self.unfinished_tasks();
        proof {
            lemma_unfinished(self.live(), self.live().len());
            let all = unfinished(self.live());
            if all.len() > 0 {
                assert(self.live()[all[0]]);
            } else {
                assert forall|i: int| 0 <= i < self.live().len() implies !(
                #[trigger] self.live()[i]) by {
                    if self.live()[i] {
                        assert(all.contains(i));
                    }
                }
            }
            assert(tasks@.len() == tasks@.map_values(|i: usize| i as int).len());
        }
        if tasks.len() == 0 {
            return Step::Stop(true);
        }
        if left == 0 {
            return Step::Stop(false);
        }
        assert(tasks@.map_values(|i: usize| i as int)[draw as int] == tasks@[draw as int]);
        Step::Poll(tasks[draw])
    }

    /// One step of a run that may still make `left` polls. Whatever is drawn,
    /// the task to poll is unfinished.
    pub fn step(&mut self, left: usize) -> (r: Step)
        ensures
            final(self).live() == old(self).live(),
            (r, final(self).words()) == stepped(old(self).live(), old(self).words(), left as nat),
            match r {
                Step::Poll(task) => left > 0 && task < old(self).live().len() && old(
                    self,
                ).live()[task as int],
                Step::Stop(done) => (left == 0 || all_done(old(self).live())) && done == all_done(
                    old(self).live(),
                ),
            },
    {
        let tasks = self.unfinished_tasks();
        assert(tasks@.len() == tasks@.map_values(|i: usize| i as int).len());
        let draw: usize = if left > 0 && tasks.len() > 0 {
            chacha_below(&mut self.rng, tasks.len())
        } else {
            0
        };
        proof {
            every_unfinished_task_can_be_drawn(self.live());
        }
        self.choose_step(left, draw)
    }
}

/// A task that gives way once.
#[derive(Debug)]
pub struct YieldNow {
    yielded: bool,
}

impl YieldNow {
    /// Whether it has given way.
    pub closed spec fn has_yielded(&self) -> bool {
        self.yielded
    }

    /// Poll: pending the first time, when the poller must be woken again, and
    /// ready from then on.
    pub fn poll(&mut self) -> (ready: bool)
        ensures
            ready == old(self).has_yielded(),
            final(self).has_yielded(),
    {
        if self.yielded {
            true
        } else {
            self.yielded = true;
            false
        }
    }
}

/// Give way once: pending on the first poll, ready on the next.
pub fn yield_now() -> (r: YieldNow)
    ensures
        !r.has_yielded(),
{
    YieldNow { yielded: false }
}

// ---------- laws ----------

/// The unfinished tasks are exactly those that were not reported done: each
/// number that can be drawn is one of them, and each of them can be drawn.
pub proof fn every_unfinished_task_can_be_drawn(live: Seq<bool>)
    ensures
        forall|k: int|
            0 <= k < unfinished(live).len() ==> 0 <= #[trigger] unfinished(live)[k] < live.len()
                && live[unfinished(live)[k]],
        forall|i: int|
            0 <= i < live.len() && #[trigger] live[i] ==> unfinished(live).contains(i),
        unfinished(live).len() == 0 <==> all_done(live),
{
    lemma_unfinished(live, live.len());
    if all_done(live) && unfinished(live).len() > 0 {
        assert(live[unfinished(live)[0]]);
    }
    if unfinished(live).len() == 0 {
        assert forall|i: int| 0 <= i < live.len() implies !(#[trigger] live[i]) by {
            if live[i] {
                assert(unfinished(live).contains(i));
            }
        }
    }
}

/// The steps of a run from here on that may make `left` polls, where `done` tells
/// of each poll whether it completed its task.
pub open spec fn played(
    live: Seq<bool>,
    words: Map<nat, u32>,
    left: nat,
    done: spec_fn(nat) -> bool,
) -> Seq<Step>
    decreases left,
{
    let (step, rest) = stepped(live, words, left);
    match step {
        Step::Stop(_) => seq![step],
        Step::Poll(task) => if left == 0 {
            seq![step]
        } else {
            seq![step] + played(
                if done(left) {
                    live.update(task as int, false)
                } else {
                    live
                },
                rest,
                (left - 1) as nat,
                done,
            )
        },
    }
}

/// The seed determines the interleaving: two schedulers with the same seed and
/// the same tasks poll the same tasks in the same order, as long as the tasks
/// complete at the same polls.
pub proof fn the_seed_determines_the_interleaving(
    a: DeterministicScheduler,
    b: DeterministicScheduler,
    seed: u64,
    left: nat,
    done: spec_fn(nat) -> bool,
)
    requires
        a.words() == crate::chance::chacha8_seeded(seed),
        b.words() == crate::chance::chacha8_seeded(seed),
        a.live() == b.live(),
    ensures
        played(a.live(), a.words(), left, done) == played(b.live(), b.words(), left, done),
{
}

/// A run makes at most as many polls as it may, and then stops.
pub proof fn every_run_stops(
    live: Seq<bool>,
    words: Map<nat, u32>,
    left: nat,
    done: spec_fn(nat) -> bool,
)
    ensures
        ({
            let steps = played(live, words, left, done);
            &&& 0 < steps.len() <= left + 1
            &&& steps.last() is Stop
            &&& forall|i: int| 0 <= i < steps.len() - 1 ==> #[trigger] steps[i] is Poll
        }),
    decreases left,
{
    let (step, rest) = stepped(live, words, left);
    match step {
        Step::Stop(_) => {},
        Step::Poll(task) => {
            let next = if done(left) {
                live.update(task as int, false)
            } else {
                live
            };
            every_run_stops(next, rest, (left - 1) as nat, done);
            let more = played(next, rest, (left - 1) as nat, done);
            let steps = seq![step] + more;
            assert(steps.last() == more.last());
            assert forall|i: int| 0 <= i < steps.len() - 1 implies #[trigger] steps[i] is Poll by {
                if i > 0 {
                    assert(steps[i] == more[i - 1]);
                }
            }
        },
    }
}

/// The unfinished tasks are drawn from in their order: the task at a draw is the
/// one that has exactly that many unfinished ones before it.
pub proof fn tasks_are_drawn_in_their_order(live: Seq<bool>, n: nat, k: int, m: int)
    requires
        n <= live.len(),
        0 <= k < m < unfinished_upto(live, n).len(),
    ensures
        0 <= unfinished_upto(live, n)[k] < unfinished_upto(live, n)[m] < n,
    decreases n,
{
    lemma_unfinished(live, n);
    let before = unfinished_upto(live, (n - 1) as nat);
    lemma_unfinished(live, (n - 1) as nat);
    if m < before.len() {
        tasks_are_drawn_in_their_order(live, (n - 1) as nat, k, m);
    } else {
        assert(before[k] < n - 1);
    }
}

/// A run polls what is drawn while polls and tasks are left, and otherwise stops
/// and says whether every task is done.
pub proof fn runs_poll_what_is_drawn(live: Seq<bool>, words: Map<nat, u32>, left: nat)
    ensures
        (forall|i: int| 0 <= i < live.len() ==> !#[trigger] live[i]) ==> stepped(live, words, left)
            == (Step::Stop(true), words),
        (exists|i: int| 0 <= i < live.len() && #[trigger] live[i]) ==> stepped(live, words, left)
            == if left == 0 {
            (Step::Stop(false), words)
        } else {
            (
                Step::Poll(
                    unfinished(live)[crate::chance::range_drawn(
                        words,
                        unfinished(live).len(),
                    ).0 as int] as usize,
                ),
                crate::chance::range_drawn(words, unfinished(live).len()).1,
            )
        },
{
    every_unfinished_task_can_be_drawn(live);
}

} // verus!
