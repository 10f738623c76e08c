//! Named failpoints for persistence boundaries.
//!
//! Code calls [`hit`] at a boundary; with no action registered that does
//! nothing. Tests register actions with [`set`] and take them back with
//! [`release`].

use vstd::prelude::*;

use crate::crash_backing::{BackingError, ErrorKind};
use crate::table::Table;
use crate::text::join4;

verus! {

/// What happens when a failpoint is hit.
#[derive(Debug)]
pub enum FailpointAction {
    /// Panic with the given message.
    Panic(String),
    /// Fail the operation with an error.
    IoError(ErrorKind, String),
    /// Fail the operation this many times more, then do nothing.
    Countdown(usize, ErrorKind, String),
    /// Ask the callback with this number.
    Callback(u64),
}

/// The registered actions by name.
pub struct Registry {
    actions: Table<FailpointAction>,
}

/// What the code at the boundary must do.
#[derive(Debug)]
pub enum Outcome {
    /// Go on.
    Pass,
    /// Panic with this text.
    Panic(String),
    /// Fail with this error.
    Fail(BackingError),
    /// Ask the callback with this number, and fail if it says so.
    Ask(u64),
}

/// The registered name that is taken back with [`release`].
#[derive(Debug)]
#[must_use]
pub struct FailpointGuard {
    name: String,
}

impl FailpointGuard {
    /// The name of the failpoint.
    pub closed spec fn name(&self) -> Seq<char> {
        self.name@
    }
}

impl View for Registry {
    type V = Map<Seq<char>, FailpointAction>;

    closed spec fn view(&self) -> Map<Seq<char>, FailpointAction> {
        self.actions@
    }
}

impl Registry {
    pub fn new() -> (r: Self)
        ensures
            r@ == Map::<Seq<char>, FailpointAction>::empty(),
    {
        Registry { actions: Table::new() }
    }
}

/// Register an action, in place of one that the name had.
pub fn set(registry: &mut Registry, name: &str, action: FailpointAction) -> (r: FailpointGuard)
    ensures
        final(registry)@ == old(registry)@.insert(name@, action),
        r.name() == name@,
{
    registry.actions.insert(name, action);
    FailpointGuard { name: name.to_owned() }
}

/// Take back the action of a guard's name.
pub fn release(registry: &mut Registry, guard: FailpointGuard)
    ensures
        final(registry)@ == old(registry)@.remove(guard.name()),
{
    registry.actions.remove(guard.name.as_str());
}

/// Register an action that fails the first `n` hits, then does nothing.
pub fn fail_n_times(
    registry: &mut Registry,
    name: &str,
    n: usize,
    kind: ErrorKind,
    msg: &str,
) -> (r: FailpointGuard)
    ensures
        r.name() == name@,
        final(registry)@.dom() == old(registry)@.dom().insert(name@),
        final(registry)@.remove(name@) == old(registry)@.remove(name@),
        final(registry)@[name@] matches FailpointAction::Countdown(left, k, m) && left == n && k
            == kind && m@ == msg@,
{
    let r = set(registry, name, FailpointAction::Countdown(n, kind, msg.to_owned()));
    assert(registry@.remove(name@) =~= old(registry)@.remove(name@));
    r
}

pub fn clear_all(registry: &mut Registry)
    ensures
        final(registry)@ == Map::<Seq<char>, FailpointAction>::empty(),
{
    registry.actions = Table::new();
}

pub fn is_active(registry: &Registry, name: &str) -> (r: bool)
    ensures
        r == registry@.contains_key(name@),
{
    registry.actions.contains_key(name)
}

/// What hitting a failpoint with this action asks for.
pub open spec fn asks(name: Seq<char>, action: FailpointAction, outcome: Outcome) -> bool {
    match action {
        FailpointAction::Panic(msg) => outcome matches Outcome::Panic(text) && text@
            == "failpoint "@ + name + ": "@ + msg@,
        FailpointAction::IoError(kind, msg) => outcome matches Outcome::Fail(e) && e.kind == kind
            && e.message@ == msg@,
        FailpointAction::Countdown(left, kind, msg) => if left > 0 {
            outcome matches Outcome::Fail(e) && e.kind == kind && e.message@ == msg@
        } else {
            outcome is Pass
        },
        FailpointAction::Callback(token) => outcome == Outcome::Ask(token),
    }
}

/// The action that is left once it was hit.
pub open spec fn worn(action: FailpointAction) -> FailpointAction {
    match action {
        FailpointAction::Countdown(left, kind, msg) => FailpointAction::Countdown(
            if left > 0 {
                (left - 1) as usize
            } else {
                0
            },
            kind,
            msg,
        ),
        other => other,
    }
}

/// Evaluate the failpoint `name`. Nothing happens unless an action is
/// registered.
pub fn hit(registry: &mut Registry, name: &str) -> (r: Outcome)
    ensures
        !old(registry)@.contains_key(name@) ==> r is Pass && final(registry)@ == old(registry)@,
        old(registry)@.contains_key(name@) ==> {
            &&& asks(name@, old(registry)@[name@], r)
            &&& final(registry)@ == old(registry)@.insert(name@, worn(old(registry)@[name@]))
        },
{
    let (outcome, next): (Outcome, Option<FailpointAction>) = match registry.actions.get(name) {
        None => (Outcome::Pass, None),
        Some(FailpointAction::Panic(msg)) => (
            Outcome::Panic(join4("failpoint ", name, ": ", msg.as_str())),
            None,
        ),
        Some(FailpointAction::IoError(kind, msg)) => (
            Outcome::Fail(BackingError { kind: *kind, message: msg.clone() }),
            None,
        ),
        Some(FailpointAction::Countdown(left, kind, msg)) => if *left > 0 {
            (
                Outcome::Fail(BackingError { kind: *kind, message: msg.clone() }),
                Some(FailpointAction::Countdown(*left - 1, *kind, msg.clone())),
            )
        } else {
            (Outcome::Pass, None)
        },
        Some(FailpointAction::Callback(token)) => (Outcome::Ask(*token), None),
    };
    match next {
        Some(action) => {
            registry.actions.insert(name, action);
        },
        None => {},
    }
    proof {
        if old(registry)@.contains_key(name@) {
            assert(registry@ =~= old(registry)@.insert(name@, worn(old(registry)@[name@])));
        }
    }
    outcome
}

// ---------- laws ----------

/// The action after `hits` hits.
pub open spec fn worn_times(action: FailpointAction, hits: nat) -> FailpointAction
    decreases hits,
{
    if hits == 0 {
        action
    } else {
        worn(worn_times(action, (hits - 1) as nat))
    }
}

/// A countdown of `n` fails exactly its first `n` hits, each with its kind and
/// its message.
pub proof fn countdown_fails_the_first_hits(
    name: Seq<char>,
    n: usize,
    kind: ErrorKind,
    msg: String,
    hits: nat,
    outcome: Outcome,
)
    requires
        asks(name, worn_times(FailpointAction::Countdown(n, kind, msg), hits), outcome),
    ensures
        hits < n ==> (outcome matches Outcome::Fail(e) && e.kind == kind && e.message@ == msg@),
        hits >= n ==> outcome is Pass,
{
    lemma_countdown(n, kind, msg, hits);
}

proof fn lemma_countdown(n: usize, kind: ErrorKind, msg: String, hits: nat)
    ensures
        worn_times(FailpointAction::Countdown(n, kind, msg), hits) == FailpointAction::Countdown(
            if hits <= n {
                (n - hits) as usize
            } else {
                0
            },
            kind,
            msg,
        ),
    decreases hits,
{
    if hits > 0 {
        lemma_countdown(n, kind, msg, (hits - 1) as nat);
    }
}

/// Every other action answers each hit alike.
pub proof fn other_actions_do_not_wear(action: FailpointAction)
    requires
        !(action is Countdown),
    ensures
        worn(action) == action,
{
}

/// A failpoint answers by its action alone: a panic with its name and message,
/// a failure with its kind and message, or the callback's number.
pub proof fn failpoints_answer_by_their_action(
    name: Seq<char>,
    msg: String,
    kind: ErrorKind,
    token: u64,
    outcome: Outcome,
)
    ensures
        asks(name, FailpointAction::Panic(msg), outcome) <==> (outcome matches Outcome::Panic(text)
            && text@ == "failpoint "@ + name + ": "@ + msg@),
        asks(name, FailpointAction::IoError(kind, msg), outcome) <==> (outcome matches Outcome::Fail(
            e,
        ) && e.kind == kind && e.message@ == msg@),
        asks(name, FailpointAction::Callback(token), outcome) <==> outcome == Outcome::Ask(token),
{
}

} // verus!
