//! Recovery: cleaning up after an attachment whose backend is gone, and the
//! direct removal of a mapping while the backend is still there.
//!
//! Both are machines that take one answer at a time. A recovery takes down one
//! layer per round, at most four rounds, and every observation stands between
//! two probes that found no backend. A direct removal checks the backend and
//! the mapping twice before it removes anything, and once more afterwards.

use vstd::prelude::*;

use crate::detach::DetachObservation;
use crate::exec::{identity_error, ExecError};
use crate::executor::{check_detach, Action, Answer};
use crate::plan::{Plan, PlannedStep};
use crate::recover::BlockIdentity;
use crate::run::{Backend, End, Event, Layer};
use crate::state::BoundDeviceRecord;
use crate::text::{join2, same};

verus! {

broadcast use vstd::seq::group_seq_axioms;

// ---------- the course of a recovery ----------

/// How many layers a recovery takes down before it gives up.
pub const MAX_ROUNDS: u8 = 4;

/// Where a recovery stands: which answer it waits for.
#[derive(Debug, Clone, Copy, PartialEq, Eq, Structural)]
pub enum Stage {
    Ready,
    /// The probe before an observation.
    Before,
    Observing,
    /// The probe after an observation.
    After(DetachObservation),
    Acting,
    Retiring,
    Over,
}

/// The state of a recovery.
#[derive(Debug, Clone, Copy, PartialEq, Eq, Structural)]
pub struct Course {
    pub stage: Stage,
    /// The layers taken down so far.
    pub rounds: u8,
}

/// What a recovery does next.
#[derive(Debug, Clone, Copy, PartialEq, Eq, Structural)]
pub enum Move {
    Probe,
    Observe,
    /// Take down the mount or the group.
    TakeDown(Layer),
    Retire,
    /// It is over, with the reason if it failed.
    Stop(Option<Trouble>),
}

/// Why a recovery failed.
#[derive(Debug, Clone, Copy, PartialEq, Eq, Structural)]
pub enum Trouble {
    /// The answer itself was a failure.
    Reported,
    /// The recorded backend is there.
    StillConnected,
    /// Some other backend is there.
    Foreign,
    /// Something else uses the device.
    InUse,
    /// Layers are left after the last round.
    Endless,
}

/// A transition of a recovery.
#[derive(Debug, Clone, Copy, PartialEq, Eq, Structural)]
pub struct Turn {
    pub course: Course,
    pub step: Move,
}

/// The end of a recovery.
pub open spec fn over(c: Course, trouble: Option<Trouble>) -> Turn {
    Turn { course: Course { stage: Stage::Over, ..c }, step: Move::Stop(trouble) }
}

/// Go on.
pub open spec fn on(c: Course, stage: Stage, step: Move) -> Turn {
    Turn { course: Course { stage, ..c }, step }
}

/// Go on only where there is no backend.
pub open spec fn when_absent(c: Course, e: Event, turn: Turn) -> Turn {
    match crate::run::backend_of(e) {
        Backend::Absent => turn,
        Backend::Ours => over(c, Some(Trouble::StillConnected)),
        Backend::Foreign => over(c, Some(Trouble::Foreign)),
        Backend::Unreadable => over(c, Some(Trouble::Reported)),
    }
}

/// What an observation asks for.
pub open spec fn cleanup(c: Course, o: DetachObservation) -> Turn {
    if o.mounted {
        on(c, Stage::Acting, Move::TakeDown(Layer::Mount))
    } else if o.vg_active {
        on(c, Stage::Acting, Move::TakeDown(Layer::Group))
    } else if o.nbd_in_use {
        over(c, Some(Trouble::InUse))
    } else {
        on(c, Stage::Retiring, Move::Retire)
    }
}

/// What follows an answer.
pub open spec fn turned(c: Course, e: Event) -> Turn {
    match c.stage {
        Stage::Ready => on(c, Stage::Before, Move::Probe),
        Stage::Before => when_absent(c, e, on(c, Stage::Observing, Move::Observe)),
        Stage::Observing => match crate::run::seen(e) {
            Some(o) => on(c, Stage::After(o), Move::Probe),
            None => over(c, Some(Trouble::Reported)),
        },
        Stage::After(o) => when_absent(c, e, cleanup(c, o)),
        Stage::Acting => if !crate::run::succeeded(e) {
            over(c, Some(Trouble::Reported))
        } else if c.rounds + 1 >= MAX_ROUNDS {
            over(c, Some(Trouble::Endless))
        } else {
            on(Course { rounds: (c.rounds + 1) as u8, ..c }, Stage::Before, Move::Probe)
        },
        Stage::Retiring => if crate::run::succeeded(e) {
            over(c, None)
        } else {
            over(c, Some(Trouble::Reported))
        },
        Stage::Over => over(c, Some(Trouble::Reported)),
    }
}

/// The start of a recovery.
pub open spec fn outset() -> Course {
    Course { stage: Stage::Ready, rounds: 0 }
}

fn stop(c: Course, trouble: Option<Trouble>) -> (r: Turn)
    ensures
        r == over(c, trouble),
{
    Turn { course: Course { stage: Stage::Over, rounds: c.rounds }, step: Move::Stop(trouble) }
}

fn go(c: Course, stage: Stage, step: Move) -> (r: Turn)
    ensures
        r == on(c, stage, step),
{
    Turn { course: Course { stage, rounds: c.rounds }, step }
}

fn go_if_absent(c: Course, e: Event, turn: Turn) -> (r: Turn)
    ensures
        r == when_absent(c, e, turn),
{
    let backend = match e {
        Event::Backend(b) => b,
        _ => Backend::Unreadable,
    };
    match backend {
        Backend::Absent => turn,
        Backend::Ours => stop(c, Some(Trouble::StillConnected)),
        Backend::Foreign => stop(c, Some(Trouble::Foreign)),
        Backend::Unreadable => stop(c, Some(Trouble::Reported)),
    }
}

fn clean(c: Course, o: DetachObservation) -> (r: Turn)
    ensures
        r == cleanup(c, o),
{
    if o.mounted {
        go(c, Stage::Acting, Move::TakeDown(Layer::Mount))
    } else if o.vg_active {
        go(c, Stage::Acting, Move::TakeDown(Layer::Group))
    } else if o.nbd_in_use {
        stop(c, Some(Trouble::InUse))
    } else {
        go(c, Stage::Retiring, Move::Retire)
    }
}

/// What follows an answer.
pub fn turn(c: Course, e: Event) -> (r: Turn)
    ensures
        r == turned(c, e),
{
    match c.stage {
        Stage::Ready => go(c, Stage::Before, Move::Probe),
        Stage::Before => go_if_absent(c, e, go(c, Stage::Observing, Move::Observe)),
        Stage::Observing => match e {
            Event::Observed(Some(o)) => go(c, Stage::After(o), Move::Probe),
            _ => stop(c, Some(Trouble::Reported)),
        },
        Stage::After(o) => go_if_absent(c, e, clean(c, o)),
        Stage::Acting => match e {
            Event::Done(true) => if c.rounds >= MAX_ROUNDS - 1 {
                stop(c, Some(Trouble::Endless))
            } else {
                go(
                    Course { stage: c.stage, rounds: c.rounds + 1 },
                    Stage::Before,
                    Move::Probe,
                )
            },
            _ => stop(c, Some(Trouble::Reported)),
        },
        Stage::Retiring => match e {
            Event::Done(true) => stop(c, None),
            _ => stop(c, Some(Trouble::Reported)),
        },
        Stage::Over => stop(c, Some(Trouble::Reported)),
    }
}

/// The state of a recovery after its first `n` answers.
pub open spec fn course_after(events: Seq<Event>, n: nat) -> Course
    decreases n,
{
    if n == 0 {
        outset()
    } else {
        turned(course_after(events, (n - 1) as nat), events[n - 1]).course
    }
}

/// What a recovery does on its answer number `n`.
pub open spec fn move_at(events: Seq<Event>, n: int) -> Move {
    turned(course_after(events, n as nat), events[n]).step
}

/// A recovery changes something only when its last three answers were: no
/// backend, the observation, and again no backend. It takes down the highest
/// live layer that was observed, and retires the record only when nothing of
/// the attachment was left. It never takes down a device.
pub proof fn recovery_acts_only_without_a_backend(events: Seq<Event>, n: int)
    requires
        0 <= n < events.len(),
        move_at(events, n) is TakeDown || move_at(events, n) is Retire,
    ensures
        n >= 2,
        events[n] == Event::Backend(Backend::Absent),
        events[n - 2] == Event::Backend(Backend::Absent),
        crate::run::seen(events[n - 1]) matches Some(o) && match move_at(events, n) {
            Move::TakeDown(layer) => layer != Layer::Device && crate::run::top_layer(o) == Some(
                layer,
            ),
            _ => o.is_clear(),
        },
{
    reveal_with_fuel(course_after, 4);
    assert(n >= 2);
}

/// How many answers a recovery may still take.
pub open spec fn turns_left(c: Course) -> int {
    let left = 4 * (MAX_ROUNDS as int - c.rounds as int);
    match c.stage {
        Stage::Ready => left + 6,
        Stage::Before => left + 5,
        Stage::Observing => left + 4,
        Stage::After(_) => left + 3,
        Stage::Acting => left + 2,
        Stage::Retiring => left + 1,
        Stage::Over => 0,
    }
}

/// Every recovery ends, whatever it is told: after 22 answers at the latest.
pub proof fn every_recovery_ends(events: Seq<Event>, n: nat)
    requires
        n <= events.len(),
    ensures
        course_after(events, n).rounds < MAX_ROUNDS,
        n >= 22 ==> course_after(events, n).stage == Stage::Over,
        course_after(events, n).stage == Stage::Over || turns_left(course_after(events, n)) + n
            <= 22,
    decreases n,
{
    if n > 0 {
        every_recovery_ends(events, (n - 1) as nat);
    }
}

// ---------- a recovery ----------

/// A recovery of one attachment.
pub struct Recovery {
    pub volume: String,
    pub record: BoundDeviceRecord,
    pub course: Course,
    /// Why it failed.
    pub error: Option<ExecError>,
}

/// Why a plan may not be recovered: nothing is recorded, or the plan is not the
/// detach of what is recorded.
pub open spec fn recovery_complaint(
    plan: Plan,
    found: Option<crate::state::Record>,
) -> Option<Seq<char>> {
    match found {
        None => Some("no trusted attachment to recover"@),
        Some(record) => if crate::executor::identity_view(plan.attachment) == Some(
            record.attachment,
        ) && crate::executor::detaches(plan.view_steps(), record) {
            None
        } else {
            Some("recovery configuration does not match the trusted attachment"@)
        },
    }
}

/// The answer is one to what the recovery waits for.
pub open spec fn replies(stage: Stage, answer: Answer) -> bool {
    match stage {
        Stage::Ready => answer is Start,
        Stage::Before | Stage::After(_) => answer is Backend,
        Stage::Observing => answer is Observed,
        Stage::Acting | Stage::Retiring => answer is Ran,
        Stage::Over => false,
    }
}

/// What an answer is to the recovery. An answer to something else is a failure.
pub open spec fn event_of(record: crate::state::Record, stage: Stage, answer: Answer) -> Event {
    if !replies(stage, answer) {
        Event::Done(false)
    } else {
        match answer {
            Answer::Start => Event::Start,
            Answer::Backend(said) => Event::Backend(
                crate::executor::judged(Some(record), said),
            ),
            Answer::Observed(Ok(o)) => Event::Observed(Some(o)),
            Answer::Observed(Err(_)) => Event::Observed(None),
            Answer::Ran(r) => Event::Done(r is Ok),
            _ => Event::Done(false),
        }
    }
}

/// The action of a move. Where only the metadata that the attach had verified
/// is known, exactly that group is deactivated.
pub open spec fn realised(
    volume: Seq<char>,
    record: crate::state::Record,
    step: Move,
) -> crate::executor::Deed {
    match step {
        Move::Probe => crate::executor::Deed::Probe(record.device),
        Move::Observe => crate::executor::Deed::Observe { record, allow_missing: false },
        Move::TakeDown(Layer::Mount) => crate::executor::Deed::Run {
            step: crate::plan::Step::Umount { mountpoint: record.attachment.mountpoint },
            identifier: None,
        },
        Move::TakeDown(_) => if record.recovery is None && record.recovery_intent is Some {
            crate::executor::Deed::Deactivate {
                record,
                verified: record.recovery_intent->Some_0,
            }
        } else {
            crate::executor::Deed::Run {
                step: crate::plan::Step::LvmDeactivate { vg_name: record.attachment.vg_name },
                identifier: None,
            }
        },
        Move::Retire => crate::executor::Deed::Retire(volume),
        Move::Stop(None) => crate::executor::Deed::Stop(End::Finished),
        Move::Stop(Some(_)) => crate::executor::Deed::Stop(End::Refused),
    }
}

/// What a trouble is called.
pub open spec fn trouble_text(trouble: Trouble) -> Seq<char> {
    match trouble {
        Trouble::Reported => "unexpected answer"@,
        Trouble::StillConnected => "backend is still connected; use detach for a live attachment"@,
        Trouble::Foreign => "recorded NBD device now has a foreign backend; refusing recovery"@,
        Trouble::InUse => "NBD still has users; keeping recovery state"@,
        Trouble::Endless => "recovery did not converge; keeping attachment record"@,
    }
}

/// The error of a trouble: what was reported, or its name.
pub open spec fn blamed(stage: Stage, answer: Answer, trouble: Trouble, e: ExecError) -> bool {
    if trouble == Trouble::Reported && replies(stage, answer) {
        match answer {
            Answer::Backend(Err(m)) => e == ExecError::Io(m),
            Answer::Observed(Err(m)) => e == ExecError::Io(m),
            Answer::Ran(Err(x)) => e == x,
            _ => crate::executor::is_identity_error(e, trouble_text(trouble)),
        }
    } else {
        crate::executor::is_identity_error(e, trouble_text(trouble))
    }
}

fn is_reply(stage: Stage, answer: &Answer) -> (r: bool)
    ensures
        r == replies(stage, *answer),
{
    match stage {
        Stage::Ready => matches!(answer, Answer::Start),
        Stage::Before | Stage::After(_) => matches!(answer, Answer::Backend(_)),
        Stage::Observing => matches!(answer, Answer::Observed(_)),
        Stage::Acting | Stage::Retiring => matches!(answer, Answer::Ran(_)),
        Stage::Over => false,
    }
}

fn name_trouble(trouble: Trouble) -> (r: &'static str)
    ensures
        r@ == trouble_text(trouble),
{
    match trouble {
        Trouble::Reported => "unexpected answer",
        Trouble::StillConnected => "backend is still connected; use detach for a live attachment",
        Trouble::Foreign => "recorded NBD device now has a foreign backend; refusing recovery",
        Trouble::InUse => "NBD still has users; keeping recovery state",
        Trouble::Endless => "recovery did not converge; keeping attachment record",
    }
}

fn blame(stage: Stage, answer: Answer, trouble: Trouble) -> (r: ExecError)
    ensures
        blamed(stage, answer, trouble, r),
{
    let reported = match trouble {
        Trouble::Reported => is_reply(stage, &answer),
        _ => false,
    };
    if reported {
        match answer {
            Answer::Backend(Err(m)) => ExecError::Io(m),
            Answer::Observed(Err(m)) => ExecError::Io(m),
            Answer::Ran(Err(e)) => e,
            _ => identity_error(name_trouble(trouble)),
        }
    } else {
        identity_error(name_trouble(trouble))
    }
}

/// What a shown identifier is to a record.
fn judge_backend(record: &BoundDeviceRecord, said: &Result<Option<String>, String>) -> (r: Backend)
    ensures
        r == crate::executor::judged(Some(record@), *said),
{
    match said {
        Err(_) => Backend::Unreadable,
        Ok(None) => Backend::Absent,
        Ok(Some(id)) => if same(record.connection_id.as_str(), id.as_str()) {
            Backend::Ours
        } else {
            Backend::Foreign
        },
    }
}

impl Recovery {
    /// Begin a recovery, if the plan is the detach of what is recorded.
    pub fn start(plan: &Plan, stored: Result<Option<BoundDeviceRecord>, String>) -> (r: Result<
        Recovery,
        ExecError,
    >)
        ensures
            match r {
                Ok(x) => {
                    &&& stored matches Ok(Some(record)) && x.record == record
                        && recovery_complaint(*plan, Some(record@)) is None
                    &&& x.volume@ == plan.volume@
                    &&& x.course == outset()
                    &&& x.error is None
                },
                Err(e) => match stored {
                    Err(m) => e == ExecError::Io(m),
                    Ok(found) => ({
                        let complaint = recovery_complaint(
                            *plan,
                            crate::executor::record_view(found),
                        );
                        complaint is Some && crate::executor::is_identity_error(
                            e,
                            complaint->Some_0,
                        )
                    }),
                },
            },
    {
        let record = match stored {
            Err(m) => return Err(ExecError::Io(m)),
            Ok(None) => return Err(identity_error("no trusted attachment to recover")),
            Ok(Some(record)) => record,
        };
        let same_attachment = match &plan.attachment {
            Some(a) => a.matches(&record.attachment),
            None => false,
        };
        if !same_attachment || !check_detach(&plan.steps, &record) {
            return Err(
                identity_error("recovery configuration does not match the trusted attachment"),
            );
        }
        Ok(
            Recovery {
                volume: plan.volume.clone(),
                record,
                course: Course { stage: Stage::Ready, rounds: 0 },
                error: None,
            },
        )
    }

    fn judge(&self, answer: &Answer) -> (r: Event)
        ensures
            r == event_of(self.record@, self.course.stage, *answer),
    {
        if !is_reply(self.course.stage, answer) {
            return Event::Done(false);
        }
        match answer {
            Answer::Start => Event::Start,
            Answer::Backend(said) => Event::Backend(judge_backend(&self.record, said)),
            Answer::Observed(Ok(o)) => Event::Observed(Some(*o)),
            Answer::Observed(Err(_)) => Event::Observed(None),
            Answer::Ran(r) => Event::Done(r.is_ok()),
            _ => Event::Done(false),
        }
    }

    fn deactivate(&self) -> (r: Action)
        ensures
            r@ == realised(self.volume@, self.record@, Move::TakeDown(Layer::Group)),
    {
        match (&self.record.recovery, &self.record.recovery_intent) {
            (None, Some(intent)) => Action::Deactivate {
                record: self.record.clone(),
                verified: intent.verified().clone(),
            },
            _ => Action::Run {
                step: PlannedStep::LvmDeactivate {
                    vg_name: self.record.attachment.vg_name.clone(),
                },
                identifier: None,
            },
        }
    }

    /// Take an answer and say what to do next. The first answer is
    /// [`Answer::Start`].
    pub fn resume(&mut self, answer: Answer) -> (action: Action)
        ensures
            final(self).record == old(self).record,
            final(self).volume == old(self).volume,
            ({
                let event = event_of(old(self).record@, old(self).course.stage, answer);
                let turn = turned(old(self).course, event);
                &&& final(self).course == turn.course
                &&& action@ == realised(old(self).volume@, old(self).record@, turn.step)
                &&& match turn.step {
                    Move::Stop(Some(trouble)) => final(self).error is Some && blamed(
                        old(self).course.stage,
                        answer,
                        trouble,
                        final(self).error->Some_0,
                    ),
                    _ => final(self).error == old(self).error,
                }
            }),
    {
        let event = self.judge(&answer);
        let stage = self.course.stage;
        let next = turn(self.course, event);
        self.course = next.course;
        match next.step {
            Move::Probe => Action::Probe(self.record.device.clone()),
            Move::Observe => Action::Observe { record: self.record.clone(), allow_missing: false },
            Move::TakeDown(Layer::Mount) => Action::Run {
                step: PlannedStep::Umount {
                    mountpoint: self.record.attachment.mountpoint.clone(),
                },
                identifier: None,
            },
            Move::TakeDown(_) => self.deactivate(),
            Move::Retire => Action::Retire(self.volume.clone()),
            Move::Stop(None) => Action::Stop(End::Finished),
            Move::Stop(Some(trouble)) => {
                self.error = Some(blame(stage, answer, trouble));
                Action::Stop(End::Refused)
            },
        }
    }

    /// The outcome of a recovery that was told to stop.
    pub fn finish(self) -> (r: Result<(), ExecError>)
        ensures
            r == match self.error {
                None => Ok::<(), ExecError>(()),
                Some(e) => Err(e),
            },
    {
        match self.error {
            None => Ok(()),
            Some(e) => Err(e),
        }
    }
}

// ---------- the course of a direct removal ----------

/// What a search for the removable mapping came to.
#[derive(Debug, Clone, Copy, PartialEq, Eq, Structural)]
pub enum Found {
    /// There is none.
    Nothing,
    /// The mapping that was found first.
    Same,
    /// Some mapping.
    Other,
    /// A mapping without a name.
    Nameless,
    Failed,
}

/// An answer to a direct removal.
#[derive(Debug, Clone, Copy, PartialEq, Eq, Structural)]
pub enum Sign {
    Start,
    Backend(Backend),
    Target(Found),
    Done(bool),
}

/// Where a direct removal stands. Backend and mapping are checked three times:
/// to find the mapping, before it is removed, and afterwards.
#[derive(Debug, Clone, Copy, PartialEq, Eq, Structural)]
pub enum Check {
    Ready,
    FirstBackend,
    FirstTarget,
    Query,
    SecondBackend,
    SecondTarget,
    Removing,
    LastBackend,
    LastTarget,
    Over,
}

/// Why a direct removal failed.
#[derive(Debug, Clone, Copy, PartialEq, Eq, Structural)]
pub enum Obstacle {
    Reported,
    NotOurs,
    Nameless,
    Changed,
    Remained,
}

/// What a direct removal does next.
#[derive(Debug, Clone, Copy, PartialEq, Eq, Structural)]
pub enum Deal {
    Probe,
    Find,
    Query,
    Remove,
    Stop(Option<Obstacle>),
}

/// What follows a probe of the backend.
pub open spec fn when_ours(sign: Sign, check: Check) -> (Check, Deal) {
    match sign {
        Sign::Backend(Backend::Ours) => (check, Deal::Find),
        Sign::Backend(Backend::Absent) | Sign::Backend(Backend::Foreign) => (
            Check::Over,
            Deal::Stop(Some(Obstacle::NotOurs)),
        ),
        _ => (Check::Over, Deal::Stop(Some(Obstacle::Reported))),
    }
}

/// What follows an answer.
pub open spec fn dealt(check: Check, sign: Sign) -> (Check, Deal) {
    match check {
        Check::Ready => (Check::FirstBackend, Deal::Probe),
        Check::FirstBackend => when_ours(sign, Check::FirstTarget),
        Check::FirstTarget => match sign {
            Sign::Target(Found::Nothing) => (Check::Over, Deal::Stop(None)),
            Sign::Target(Found::Nameless) => (
                Check::Over,
                Deal::Stop(Some(Obstacle::Nameless)),
            ),
            Sign::Target(Found::Same) | Sign::Target(Found::Other) => (Check::Query, Deal::Query),
            _ => (Check::Over, Deal::Stop(Some(Obstacle::Reported))),
        },
        Check::Query => if sign == Sign::Done(true) {
            (Check::SecondBackend, Deal::Probe)
        } else {
            (Check::Over, Deal::Stop(Some(Obstacle::Reported)))
        },
        Check::SecondBackend => when_ours(sign, Check::SecondTarget),
        Check::SecondTarget => match sign {
            Sign::Target(Found::Same) => (Check::Removing, Deal::Remove),
            Sign::Target(Found::Nothing) | Sign::Target(Found::Other) | Sign::Target(
                Found::Nameless,
            ) => (Check::Over, Deal::Stop(Some(Obstacle::Changed))),
            _ => (Check::Over, Deal::Stop(Some(Obstacle::Reported))),
        },
        Check::Removing => if sign == Sign::Done(true) {
            (Check::LastBackend, Deal::Probe)
        } else {
            (Check::Over, Deal::Stop(Some(Obstacle::Reported)))
        },
        Check::LastBackend => when_ours(sign, Check::LastTarget),
        Check::LastTarget => match sign {
            Sign::Target(Found::Nothing) => (Check::Over, Deal::Stop(None)),
            Sign::Target(Found::Same) | Sign::Target(Found::Other) | Sign::Target(
                Found::Nameless,
            ) => (Check::Over, Deal::Stop(Some(Obstacle::Remained))),
            _ => (Check::Over, Deal::Stop(Some(Obstacle::Reported))),
        },
        Check::Over => (Check::Over, Deal::Stop(Some(Obstacle::Reported))),
    }
}

fn go_if_ours(sign: Sign, check: Check) -> (r: (Check, Deal))
    ensures
        r == when_ours(sign, check),
{
    match sign {
        Sign::Backend(Backend::Ours) => (check, Deal::Find),
        Sign::Backend(Backend::Absent) | Sign::Backend(Backend::Foreign) => (
            Check::Over,
            Deal::Stop(Some(Obstacle::NotOurs)),
        ),
        _ => (Check::Over, Deal::Stop(Some(Obstacle::Reported))),
    }
}

/// What follows an answer.
pub fn deal(check: Check, sign: Sign) -> (r: (Check, Deal))
    ensures
        r == dealt(check, sign),
{
    let failed = (Check::Over, Deal::Stop(Some(Obstacle::Reported)));
    match check {
        Check::Ready => (Check::FirstBackend, Deal::Probe),
        Check::FirstBackend => go_if_ours(sign, Check::FirstTarget),
        Check::FirstTarget => match sign {
            Sign::Target(Found::Nothing) => (Check::Over, Deal::Stop(None)),
            Sign::Target(Found::Nameless) => (
                Check::Over,
                Deal::Stop(Some(Obstacle::Nameless)),
            ),
            Sign::Target(Found::Same) | Sign::Target(Found::Other) => (Check::Query, Deal::Query),
            _ => failed,
        },
        Check::Query => match sign {
            Sign::Done(true) => (Check::SecondBackend, Deal::Probe),
            _ => failed,
        },
        Check::SecondBackend => go_if_ours(sign, Check::SecondTarget),
        Check::SecondTarget => match sign {
            Sign::Target(Found::Same) => (Check::Removing, Deal::Remove),
            Sign::Target(Found::Failed) => failed,
            Sign::Target(_) => (Check::Over, Deal::Stop(Some(Obstacle::Changed))),
            _ => failed,
        },
        Check::Removing => match sign {
            Sign::Done(true) => (Check::LastBackend, Deal::Probe),
            _ => failed,
        },
        Check::LastBackend => go_if_ours(sign, Check::LastTarget),
        Check::LastTarget => match sign {
            Sign::Target(Found::Nothing) => (Check::Over, Deal::Stop(None)),
            Sign::Target(Found::Failed) => failed,
            Sign::Target(_) => (Check::Over, Deal::Stop(Some(Obstacle::Remained))),
            _ => failed,
        },
        Check::Over => failed,
    }
}

/// The state of a direct removal after its first `n` answers.
pub open spec fn check_after(signs: Seq<Sign>, n: nat) -> Check
    decreases n,
{
    if n == 0 {
        Check::Ready
    } else {
        dealt(check_after(signs, (n - 1) as nat), signs[n - 1]).0
    }
}

/// What a direct removal does on its answer number `n`.
pub open spec fn deal_at(signs: Seq<Sign>, n: int) -> Deal {
    dealt(check_after(signs, n as nat), signs[n]).1
}

/// A mapping is removed only when, immediately before, the kernel showed the
/// recorded backend and the same mapping that had been found and whose identity
/// report had been confirmed.
pub proof fn mappings_are_removed_only_after_a_second_look(signs: Seq<Sign>, n: int)
    requires
        0 <= n < signs.len(),
        deal_at(signs, n) == Deal::Remove,
    ensures
        n == 5,
        signs[5] == Sign::Target(Found::Same),
        signs[4] == Sign::Backend(Backend::Ours),
        signs[3] == Sign::Done(true),
        signs[2] == Sign::Target(Found::Same) || signs[2] == Sign::Target(Found::Other),
        signs[1] == Sign::Backend(Backend::Ours),
{
    lemma_check_at(signs, n as nat);
    reveal_with_fuel(check_after, 7);
}

/// The state tells how many answers there were.
proof fn lemma_check_at(signs: Seq<Sign>, n: nat)
    ensures
        match check_after(signs, n) {
            Check::Ready => n == 0,
            Check::FirstBackend => n == 1,
            Check::FirstTarget => n == 2,
            Check::Query => n == 3,
            Check::SecondBackend => n == 4,
            Check::SecondTarget => n == 5,
            Check::Removing => n == 6,
            Check::LastBackend => n == 7,
            Check::LastTarget => n == 8,
            Check::Over => true,
        },
    decreases n,
{
    if n > 0 {
        lemma_check_at(signs, (n - 1) as nat);
    }
}

/// A direct removal that succeeds found nothing to remove, in the beginning or
/// in the end.
pub proof fn removals_succeed_only_when_nothing_is_left(signs: Seq<Sign>, n: int)
    requires
        0 <= n < signs.len(),
        deal_at(signs, n) == Deal::Stop(None),
    ensures
        signs[n] == Sign::Target(Found::Nothing),
        n >= 1 && signs[n - 1] == Sign::Backend(Backend::Ours),
{
    lemma_check_at(signs, n as nat);
    reveal_with_fuel(check_after, 2);
}

// ---------- a direct removal ----------

/// What came of an action of a direct removal.
pub enum Reply {
    Start,
    /// The identifier of the device's backend, or that it has none.
    Backend(Result<Option<String>, String>),
    /// The removable mapping, if there is one.
    Target(Result<Option<BlockIdentity>, String>),
    /// Whether the identity report confirmed the mapping.
    Confirmed(Result<(), String>),
    /// Whether the removing command succeeded, with its status.
    Removed(Result<(bool, Option<i32>), String>),
}

/// What a direct removal does.
pub enum Deed {
    /// Read the backend of a device.
    Probe(String),
    /// Search for the removable mapping of an attachment.
    Find(BoundDeviceRecord),
    /// Read the identity report of a mapping and hold it to the mapping.
    Query(BlockIdentity),
    /// Remove the mapping of this name.
    Remove(String),
    /// It is over; see [`Removal::finish`].
    Stop,
}

/// A direct removal of the one mapping of an attachment.
pub struct Removal {
    pub record: BoundDeviceRecord,
    pub check: Check,
    /// The mapping that was found first.
    pub mapping: Option<BlockIdentity>,
    /// Why it failed.
    pub error: Option<ExecError>,
}

/// The texts of an optional mapping.
pub open spec fn mapping_view(mapping: Option<BlockIdentity>) -> Option<crate::recover::Node> {
    match mapping {
        Some(m) => Some(m@),
        None => None,
    }
}

/// The answer is one to what the removal waits for.
pub open spec fn fits(check: Check, reply: Reply) -> bool {
    match check {
        Check::Ready => reply is Start,
        Check::FirstBackend | Check::SecondBackend | Check::LastBackend => reply is Backend,
        Check::FirstTarget | Check::SecondTarget | Check::LastTarget => reply is Target,
        Check::Query => reply is Confirmed,
        Check::Removing => reply is Removed,
        Check::Over => false,
    }
}

/// What a search came to.
pub open spec fn found(
    check: Check,
    mapping: Option<crate::recover::Node>,
    target: Result<Option<BlockIdentity>, String>,
) -> Found {
    match target {
        Err(_) => Found::Failed,
        Ok(None) => Found::Nothing,
        Ok(Some(m)) => if check == Check::FirstTarget {
            if m@.dm_name is None {
                Found::Nameless
            } else {
                Found::Other
            }
        } else if mapping == Some(m@) {
            Found::Same
        } else {
            Found::Other
        },
    }
}

/// What an answer is to the removal. An answer to something else is a failure.
pub open spec fn sign_of(
    record: crate::state::Record,
    mapping: Option<crate::recover::Node>,
    check: Check,
    reply: Reply,
) -> Sign {
    if !fits(check, reply) {
        Sign::Done(false)
    } else {
        match reply {
            Reply::Start => Sign::Start,
            Reply::Backend(said) => Sign::Backend(crate::executor::judged(Some(record), said)),
            Reply::Target(target) => Sign::Target(found(check, mapping, target)),
            Reply::Confirmed(r) => Sign::Done(r is Ok),
            Reply::Removed(Ok((success, _))) => Sign::Done(success),
            Reply::Removed(Err(_)) => Sign::Done(false),
        }
    }
}

/// The mapping that the removal knows after an answer.
pub open spec fn mapping_after(
    mapping: Option<crate::recover::Node>,
    check: Check,
    reply: Reply,
) -> Option<crate::recover::Node> {
    match reply {
        Reply::Target(Ok(Some(m))) => if check == Check::FirstTarget {
            Some(m@)
        } else {
            mapping
        },
        _ => mapping,
    }
}

/// The name of the mapping.
pub open spec fn mapping_name(mapping: Option<crate::recover::Node>) -> Seq<char> {
    match mapping {
        Some(m) => match m.dm_name {
            Some(name) => name,
            None => Seq::empty(),
        },
        None => Seq::empty(),
    }
}

/// What an obstacle is called.
pub open spec fn obstacle_text(obstacle: Obstacle, device: Seq<char>) -> Seq<char> {
    match obstacle {
        Obstacle::Reported => "unexpected answer"@,
        Obstacle::NotOurs => device
            + " no longer has the recorded attachment identity; refusing to disconnect"@,
        Obstacle::Nameless => "verified mapping has no device-mapper name"@,
        Obstacle::Changed => "device-mapper identity changed before direct deactivation"@,
        Obstacle::Remained => "device-mapper target remained after direct deactivation"@,
    }
}

/// The error of an obstacle: what was reported, or its name.
pub open spec fn hindered(
    record: crate::state::Record,
    mapping: Option<crate::recover::Node>,
    check: Check,
    reply: Reply,
    obstacle: Obstacle,
    e: ExecError,
) -> bool {
    if obstacle == Obstacle::Reported && fits(check, reply) {
        match reply {
            Reply::Backend(Err(m)) => e == ExecError::Io(m),
            Reply::Target(Err(m)) => e == ExecError::Io(m),
            Reply::Confirmed(Err(m)) => e == ExecError::Io(m),
            Reply::Removed(Err(m)) => e == ExecError::Io(m),
            Reply::Removed(Ok((_, code))) => e matches ExecError::StepFailed {
                step,
                status,
                stderr,
            } && step@ == "dmsetup remove "@ + mapping_name(mapping) && status == code && stderr@
                == "external command output omitted"@,
            _ => crate::executor::is_identity_error(e, obstacle_text(obstacle, record.device)),
        }
    } else {
        crate::executor::is_identity_error(e, obstacle_text(obstacle, record.device))
    }
}

/// The action of a deal.
pub open spec fn does(
    deed: Deed,
    record: crate::state::Record,
    mapping: Option<crate::recover::Node>,
    step: Deal,
) -> bool {
    match step {
        Deal::Probe => deed matches Deed::Probe(device) && device@ == record.device,
        Deal::Find => deed matches Deed::Find(r) && r@ == record,
        Deal::Query => deed matches Deed::Query(m) && Some(m@) == mapping,
        Deal::Remove => deed matches Deed::Remove(name) && name@ == mapping_name(mapping),
        Deal::Stop(_) => deed is Stop,
    }
}

fn is_fit(check: Check, reply: &Reply) -> (r: bool)
    ensures
        r == fits(check, *reply),
{
    match check {
        Check::Ready => matches!(reply, Reply::Start),
        Check::FirstBackend | Check::SecondBackend | Check::LastBackend => matches!(
            reply,
            Reply::Backend(_)
        ),
        Check::FirstTarget | Check::SecondTarget | Check::LastTarget => matches!(
            reply,
            Reply::Target(_)
        ),
        Check::Query => matches!(reply, Reply::Confirmed(_)),
        Check::Removing => matches!(reply, Reply::Removed(_)),
        Check::Over => false,
    }
}

fn name_obstacle(obstacle: Obstacle, device: &str) -> (r: String)
    ensures
        r@ == obstacle_text(obstacle, device@),
{
    match obstacle {
        Obstacle::Reported => "unexpected answer".to_owned(),
        Obstacle::NotOurs => join2(
            device,
            " no longer has the recorded attachment identity; refusing to disconnect",
        ),
        Obstacle::Nameless => "verified mapping has no device-mapper name".to_owned(),
        Obstacle::Changed => "device-mapper identity changed before direct deactivation".to_owned(),
        Obstacle::Remained => "device-mapper target remained after direct deactivation".to_owned(),
    }
}

impl Removal {
    /// A mapping is known where the removal works on one.
    pub open spec fn sound(&self) -> bool {
        match self.check {
            Check::Query
            | Check::SecondBackend
            | Check::SecondTarget
            | Check::Removing
            | Check::LastBackend
            | Check::LastTarget => self.mapping is Some,
            _ => true,
        }
    }

    /// Begin a direct removal.
    pub fn start(record: BoundDeviceRecord) -> (r: Removal)
        ensures
            r.sound(),
            r.record == record,
            r.check == Check::Ready,
            r.mapping is None,
            r.error is None,
    {
        Removal { record, check: Check::Ready, mapping: None, error: None }
    }

    fn find(&self, target: &Result<Option<BlockIdentity>, String>) -> (r: Found)
        ensures
            r == found(self.check, mapping_view(self.mapping), *target),
    {
        match target {
            Err(_) => Found::Failed,
            Ok(None) => Found::Nothing,
            Ok(Some(m)) => match self.check {
                Check::FirstTarget => if m.dm_name.is_none() {
                    Found::Nameless
                } else {
                    Found::Other
                },
                _ => {
                    let unchanged = match &self.mapping {
                        Some(known) => known.matches(m),
                        None => false,
                    };
                    if unchanged {
                        Found::Same
                    } else {
                        Found::Other
                    }
                },
            },
        }
    }

    fn judge(&self, reply: &Reply) -> (r: Sign)
        ensures
            r == sign_of(self.record@, mapping_view(self.mapping), self.check, *reply),
    {
        if !is_fit(self.check, reply) {
            return Sign::Done(false);
        }
        match reply {
            Reply::Start => Sign::Start,
            Reply::Backend(said) => Sign::Backend(judge_backend(&self.record, said)),
            Reply::Target(target) => Sign::Target(self.find(target)),
            Reply::Confirmed(r) => Sign::Done(r.is_ok()),
            Reply::Removed(Ok((success, _))) => Sign::Done(*success),
            Reply::Removed(Err(_)) => Sign::Done(false),
        }
    }

    fn known_name(&self) -> (r: String)
        ensures
            r@ == mapping_name(mapping_view(self.mapping)),
    {
        match &self.mapping {
            Some(m) => match &m.dm_name {
                Some(name) => name.clone(),
                None => String::new(),
            },
            None => String::new(),
        }
    }

    fn hinder(&self, reply: Reply, obstacle: Obstacle) -> (r: ExecError)
        ensures
            hindered(
                self.record@,
                mapping_view(self.mapping),
                self.check,
                reply,
                obstacle,
                r,
            ),
    {
        let named = identity_error(name_obstacle(obstacle, self.record.device.as_str()).as_str());
        let reported = match obstacle {
            Obstacle::Reported => is_fit(self.check, &reply),
            _ => false,
        };
        if !reported {
            return named;
        }
        match reply {
            Reply::Backend(Err(m)) => ExecError::Io(m),
            Reply::Target(Err(m)) => ExecError::Io(m),
            Reply::Confirmed(Err(m)) => ExecError::Io(m),
            Reply::Removed(Err(m)) => ExecError::Io(m),
            Reply::Removed(Ok((_, status))) => ExecError::StepFailed {
                step: join2("dmsetup remove ", self.known_name().as_str()),
                status,
                stderr: "external command output omitted".to_owned(),
            },
            _ => named,
        }
    }

    /// Take an answer and say what to do next. The first answer is
    /// [`Reply::Start`].
    pub fn resume(&mut self, reply: Reply) -> (deed: Deed)
        requires
            old(self).sound(),
        ensures
            final(self).sound(),
            final(self).record@ == old(self).record@,
            ({
                let known = mapping_view(old(self).mapping);
                let sign = sign_of(old(self).record@, known, old(self).check, reply);
                let (check, step) = dealt(old(self).check, sign);
                &&& final(self).check == check
                &&& mapping_view(final(self).mapping) == mapping_after(
                    known,
                    old(self).check,
                    reply,
                )
                &&& does(deed, old(self).record@, mapping_view(final(self).mapping), step)
                &&& match step {
                    Deal::Stop(Some(obstacle)) => final(self).error is Some && hindered(
                        old(self).record@,
                        known,
                        old(self).check,
                        reply,
                        obstacle,
                        final(self).error->Some_0,
                    ),
                    _ => final(self).error == old(self).error,
                }
            }),
    {
        let sign = self.judge(&reply);
        let (check, step) = deal(self.check, sign);
        let mut seen: Option<BlockIdentity> = None;
        match (&reply, self.check) {
            (Reply::Target(Ok(Some(m))), Check::FirstTarget) => {
                seen = Some(m.clone());
            },
            _ => {},
        }
        match step {
            Deal::Stop(Some(obstacle)) => {
                self.error = Some(self.hinder(reply, obstacle));
            },
            _ => {},
        }
        if seen.is_some() {
            self.mapping = seen;
        }
        self.check = check;
        match step {
            Deal::Probe => Deed::Probe(self.record.device.clone()),
            Deal::Find => Deed::Find(self.record.clone()),
            Deal::Query => Deed::Query(self.mapping.as_ref().unwrap().clone()),
            Deal::Remove => Deed::Remove(self.known_name()),
            Deal::Stop(_) => Deed::Stop,
        }
    }

    /// The outcome of a removal that was told to stop.
    pub fn finish(self) -> (r: Result<(), ExecError>)
        ensures
            r == match self.error {
                None => Ok::<(), ExecError>(()),
                Some(e) => Err(e),
            },
    {
        match self.error {
            None => Ok(()),
            Some(e) => Err(e),
        }
    }
}

// ---------- what favourable answers bring about ----------

/// Without a backend a recovery looks, looks for a backend again, and then takes
/// down the highest live layer or, when nothing is left, retires the record.
pub proof fn recoveries_go_on_without_a_backend(c: Course, o: DetachObservation)
    ensures
        c.stage == Stage::Ready ==> turned(c, Event::Start).step == Move::Probe,
        c.stage == Stage::Before ==> turned(c, Event::Backend(Backend::Absent)).step
            == Move::Observe,
        c.stage == Stage::Observing ==> turned(c, Event::Observed(Some(o))).step == Move::Probe
            && turned(c, Event::Observed(Some(o))).course.stage == Stage::After(o),
        c.stage == Stage::After(o) ==> turned(c, Event::Backend(Backend::Absent)).step
            == if o.mounted {
            Move::TakeDown(Layer::Mount)
        } else if o.vg_active {
            Move::TakeDown(Layer::Group)
        } else if o.nbd_in_use {
            Move::Stop(Some(Trouble::InUse))
        } else {
            Move::Retire
        },
        c.stage == Stage::Acting && c.rounds + 1 < MAX_ROUNDS ==> turned(
            c,
            Event::Done(true),
        ).step == Move::Probe && turned(c, Event::Done(true)).course.stage == Stage::Before,
        c.stage == Stage::Retiring ==> turned(c, Event::Done(true)).step == Move::Stop(None),
{
}

/// A backend, ours or another's, ends a recovery wherever it is looked for, and
/// so does an action that fails.
pub proof fn recoveries_stop_at_a_backend(c: Course, o: DetachObservation, b: Backend)
    requires
        b != Backend::Absent,
    ensures
        c.stage == Stage::Before || c.stage == Stage::After(o) ==> turned(
            c,
            Event::Backend(b),
        ).step == Move::Stop(
            Some(
                match b {
                    Backend::Ours => Trouble::StillConnected,
                    Backend::Foreign => Trouble::Foreign,
                    _ => Trouble::Reported,
                },
            ),
        ),
        c.stage == Stage::Acting || c.stage == Stage::Retiring ==> turned(
            c,
            Event::Done(false),
        ).step == Move::Stop(Some(Trouble::Reported)),
        c.stage == Stage::Observing ==> turned(c, Event::Observed(None)).step == Move::Stop(
            Some(Trouble::Reported),
        ),
{
}

/// A recovery is begun exactly with the detach plan of the recorded attachment.
pub proof fn recoveries_need_the_plan_of_their_record(
    request: crate::plan::AttachRequest,
    plan: Plan,
    record: crate::state::Record,
)
    requires
        plan.view_steps() == crate::plan::detach_steps(request),
        crate::executor::identity_view(plan.attachment) == Some(crate::plan::identity_of(request)),
    ensures
        recovery_complaint(plan, Some(record)) is None <==> {
            &&& record.attachment == crate::plan::identity_of(request)
            &&& request.nbd_device@ == crate::plan::AUTO_NBD_DEVICE@ || request.nbd_device@
                == record.device
        },
        recovery_complaint(plan, None) is Some,
{
}

/// What a recovery does speaks of its record: the mount and the group that it
/// names, and where only the intent is known, exactly the verified group.
pub proof fn recoveries_act_on_their_record(volume: Seq<char>, record: crate::state::Record)
    ensures
        realised(volume, record, Move::Probe) == crate::executor::Deed::Probe(record.device),
        realised(volume, record, Move::Observe) == (crate::executor::Deed::Observe {
            record,
            allow_missing: false,
        }),
        realised(volume, record, Move::TakeDown(Layer::Mount)) == (crate::executor::Deed::Run {
            step: crate::plan::Step::Umount { mountpoint: record.attachment.mountpoint },
            identifier: None,
        }),
        record.recovery is Some || record.recovery_intent is None ==> realised(
            volume,
            record,
            Move::TakeDown(Layer::Group),
        ) == (crate::executor::Deed::Run {
            step: crate::plan::Step::LvmDeactivate { vg_name: record.attachment.vg_name },
            identifier: None,
        }),
        record.recovery is None && record.recovery_intent is Some ==> realised(
            volume,
            record,
            Move::TakeDown(Layer::Group),
        ) == (crate::executor::Deed::Deactivate {
            record,
            verified: record.recovery_intent->Some_0,
        }),
        realised(volume, record, Move::Retire) == crate::executor::Deed::Retire(volume),
{
}

/// A direct removal with favourable answers removes the mapping that it found,
/// and is done once the mapping is gone.
pub proof fn favoured_removals_succeed(signs: Seq<Sign>)
    requires
        signs.len() == 9,
        signs[1] == Sign::Backend(Backend::Ours),
        signs[2] == Sign::Target(Found::Other),
        signs[3] == Sign::Done(true),
        signs[4] == Sign::Backend(Backend::Ours),
        signs[5] == Sign::Target(Found::Same),
        signs[6] == Sign::Done(true),
        signs[7] == Sign::Backend(Backend::Ours),
        signs[8] == Sign::Target(Found::Nothing),
    ensures
        deal_at(signs, 0) == Deal::Probe,
        deal_at(signs, 1) == Deal::Find,
        deal_at(signs, 2) == Deal::Query,
        deal_at(signs, 3) == Deal::Probe,
        deal_at(signs, 4) == Deal::Find,
        deal_at(signs, 5) == Deal::Remove,
        deal_at(signs, 6) == Deal::Probe,
        deal_at(signs, 7) == Deal::Find,
        deal_at(signs, 8) == Deal::Stop(None),
{
    reveal_with_fuel(check_after, 10);
}

/// A removal that finds nothing to remove is done at once, and one whose mapping
/// has changed or stays behind says so.
pub proof fn removals_end_by_what_is_found(found: Found)
    ensures
        dealt(Check::FirstTarget, Sign::Target(Found::Nothing)).1 == Deal::Stop(None),
        found != Found::Same && found != Found::Failed ==> dealt(
            Check::SecondTarget,
            Sign::Target(found),
        ).1 == Deal::Stop(Some(Obstacle::Changed)),
        found != Found::Nothing && found != Found::Failed ==> dealt(
            Check::LastTarget,
            Sign::Target(found),
        ).1 == Deal::Stop(Some(Obstacle::Remained)),
{
}

/// The mapping that is removed is the one that was found first, and it counts as
/// the same only if nothing of it has changed.
pub proof fn the_first_mapping_is_the_one_removed(
    first: crate::recover::Node,
    mapping: BlockIdentity,
    deed: Deed,
    record: crate::state::Record,
    name: Seq<char>,
)
    requires
        first.dm_name == Some(name),
    ensures
        found(Check::SecondTarget, Some(first), Ok(Some(mapping))) == if mapping@ == first {
            Found::Same
        } else {
            Found::Other
        },
        mapping_after(None, Check::FirstTarget, Reply::Target(Ok(Some(mapping)))) == Some(mapping@),
        mapping_after(Some(first), Check::SecondTarget, Reply::Target(Ok(Some(mapping)))) == Some(
            first,
        ),
        does(deed, record, Some(first), Deal::Remove) ==> (deed matches Deed::Remove(n) && n@
            == name),
{
}

/// Cleaning up goes from the top: what is mounted first, the group next; with
/// neither it stops where the device is still in use, and else retires the
/// record.
pub proof fn clean_ups_go_from_the_top(c: Course, o: DetachObservation)
    ensures
        ({
            let step = cleanup(c, o).step;
            &&& step == Move::TakeDown(Layer::Mount) <==> o.mounted
            &&& step == Move::TakeDown(Layer::Group) <==> !o.mounted && o.vg_active
            &&& step == Move::Stop(Some(Trouble::InUse)) <==> !o.mounted && !o.vg_active
                && o.nbd_in_use
            &&& step == Move::Retire <==> !o.mounted && !o.vg_active && !o.nbd_in_use
        }),
{
}

/// A backend that is not absent stops a recovery, each for its own reason.
pub proof fn backends_stop_a_recovery_for_their_reason(c: Course, e: Event, turn: Turn)
    ensures
        crate::run::backend_of(e) == Backend::Absent ==> when_absent(c, e, turn) == turn,
        crate::run::backend_of(e) == Backend::Ours ==> when_absent(c, e, turn).step == Move::Stop(
            Some(Trouble::StillConnected),
        ),
        crate::run::backend_of(e) == Backend::Foreign ==> when_absent(c, e, turn).step
            == Move::Stop(Some(Trouble::Foreign)),
        crate::run::backend_of(e) == Backend::Unreadable ==> when_absent(c, e, turn).step
            == Move::Stop(Some(Trouble::Reported)),
{
}

/// What hinders a removal is passed on as it was reported.
pub proof fn hindrances_are_passed_on(
    record: crate::state::Record,
    mapping: Option<crate::recover::Node>,
    check: Check,
    reply: Reply,
    e: ExecError,
)
    requires
        hindered(record, mapping, check, reply, Obstacle::Reported, e),
        fits(check, reply),
    ensures
        reply matches Reply::Backend(Err(m)) ==> e == ExecError::Io(m),
        reply matches Reply::Target(Err(m)) ==> e == ExecError::Io(m),
        reply matches Reply::Confirmed(Err(m)) ==> e == ExecError::Io(m),
        reply matches Reply::Removed(Err(m)) ==> e == ExecError::Io(m),
        reply matches Reply::Removed(Ok(r)) ==> (e matches ExecError::StepFailed { status, .. }
            && status == r.1),
{
}

/// The backend decides a removal: only the recorded one lets it go on.
pub proof fn removals_need_the_recorded_backend(check: Check, b: Backend)
    ensures
        b == Backend::Ours ==> when_ours(Sign::Backend(b), check) == (check, Deal::Find),
        b == Backend::Absent || b == Backend::Foreign ==> when_ours(Sign::Backend(b), check) == (
            Check::Over,
            Deal::Stop(Some(Obstacle::NotOurs)),
        ),
        b == Backend::Unreadable ==> when_ours(Sign::Backend(b), check) == (
            Check::Over,
            Deal::Stop(Some(Obstacle::Reported)),
        ),
{
}

/// What stands in the way of a recovery is passed on as it was reported, or told
/// in these words.
pub proof fn troubles_are_told_in_these_words(
    stage: Stage,
    answer: Answer,
    trouble: Trouble,
    e: ExecError,
)
    requires
        blamed(stage, answer, trouble, e),
    ensures
        trouble == Trouble::Reported && replies(stage, answer) ==> (answer matches Answer::Backend(
            Err(m),
        ) ==> e == ExecError::Io(m)),
        trouble == Trouble::Reported && replies(stage, answer) ==> (answer matches Answer::Observed(
            Err(m),
        ) ==> e == ExecError::Io(m)),
        trouble == Trouble::Reported && replies(stage, answer) ==> (answer matches Answer::Ran(
            Err(x),
        ) ==> e == x),
        trouble == Trouble::StillConnected ==> crate::executor::is_identity_error(
            e,
            "backend is still connected; use detach for a live attachment"@,
        ),
        trouble == Trouble::Foreign ==> crate::executor::is_identity_error(
            e,
            "recorded NBD device now has a foreign backend; refusing recovery"@,
        ),
        trouble == Trouble::InUse ==> crate::executor::is_identity_error(
            e,
            "NBD still has users; keeping recovery state"@,
        ),
        trouble == Trouble::Endless ==> crate::executor::is_identity_error(
            e,
            "recovery did not converge; keeping attachment record"@,
        ),
{
}

/// A removal acts on the record and on the mapping that it found, and on nothing
/// else.
pub proof fn removals_act_on_their_mapping(
    deed: Deed,
    record: crate::state::Record,
    mapping: Option<crate::recover::Node>,
    step: Deal,
)
    requires
        does(deed, record, mapping, step),
    ensures
        step is Probe ==> (deed matches Deed::Probe(device) && device@ == record.device),
        step is Find ==> (deed matches Deed::Find(r) && r@ == record),
        step is Query ==> (deed matches Deed::Query(m) && mapping == Some(m@)),
        step is Remove ==> (deed matches Deed::Remove(name) && name@ == mapping_name(mapping)),
        step is Stop ==> deed is Stop,
{
}

/// A recovery waits for one kind of answer at a time; an answer to something else
/// is a failure, and so is a step that failed.
pub proof fn recovery_answers_count_for_what_they_say(
    record: crate::state::Record,
    stage: Stage,
    answer: Answer,
)
    ensures
        replies(stage, answer) <==> match stage {
            Stage::Ready => answer is Start,
            Stage::Before => answer is Backend,
            Stage::After(_) => answer is Backend,
            Stage::Observing => answer is Observed,
            Stage::Acting => answer is Ran,
            Stage::Retiring => answer is Ran,
            Stage::Over => false,
        },
        !replies(stage, answer) ==> event_of(record, stage, answer) == Event::Done(false),
        replies(stage, answer) ==> (answer matches Answer::Ran(r) ==> event_of(
            record,
            stage,
            answer,
        ) == Event::Done(r is Ok)),
        replies(stage, answer) ==> (answer matches Answer::Observed(Ok(o)) ==> event_of(
            record,
            stage,
            answer,
        ) == Event::Observed(Some(o))),
        replies(stage, answer) ==> (answer matches Answer::Observed(Err(_)) ==> event_of(
            record,
            stage,
            answer,
        ) == Event::Observed(None)),
        replies(stage, answer) ==> (answer matches Answer::Backend(Ok(None)) ==> event_of(
            record,
            stage,
            answer,
        ) == Event::Backend(Backend::Absent)),
        replies(stage, answer) ==> (answer matches Answer::Backend(Ok(Some(id))) ==> (event_of(
            record,
            stage,
            answer,
        ) == Event::Backend(Backend::Ours) <==> id@ == record.connection_id)),
{
}

/// A removal waits for one kind of reply at a time; a reply to something else is
/// a failure, and so is a command or a confirmation that failed.
pub proof fn removal_replies_count_for_what_they_say(
    record: crate::state::Record,
    mapping: Option<crate::recover::Node>,
    check: Check,
    reply: Reply,
)
    ensures
        fits(check, reply) <==> match check {
            Check::Ready => reply is Start,
            Check::FirstBackend => reply is Backend,
            Check::SecondBackend => reply is Backend,
            Check::LastBackend => reply is Backend,
            Check::FirstTarget => reply is Target,
            Check::SecondTarget => reply is Target,
            Check::LastTarget => reply is Target,
            Check::Query => reply is Confirmed,
            Check::Removing => reply is Removed,
            Check::Over => false,
        },
        !fits(check, reply) ==> sign_of(record, mapping, check, reply) == Sign::Done(false),
        fits(check, reply) ==> (reply matches Reply::Confirmed(r) ==> sign_of(
            record,
            mapping,
            check,
            reply,
        ) == Sign::Done(r is Ok)),
        fits(check, reply) ==> (reply matches Reply::Removed(Ok(r)) ==> sign_of(
            record,
            mapping,
            check,
            reply,
        ) == Sign::Done(r.0)),
        fits(check, reply) ==> (reply matches Reply::Removed(Err(_)) ==> sign_of(
            record,
            mapping,
            check,
            reply,
        ) == Sign::Done(false)),
        fits(check, reply) ==> (reply matches Reply::Backend(Ok(None)) ==> sign_of(
            record,
            mapping,
            check,
            reply,
        ) == Sign::Backend(Backend::Absent)),
        fits(check, reply) ==> (reply matches Reply::Backend(Ok(Some(id))) ==> (sign_of(
            record,
            mapping,
            check,
            reply,
        ) == Sign::Backend(Backend::Ours) <==> id@ == record.connection_id)),
{
}

/// What a search finds: nothing, the mapping that was found first, or another
/// one; a first mapping must have a name.
pub proof fn searches_tell_the_first_mapping_from_others(
    check: Check,
    mapping: Option<crate::recover::Node>,
    m: BlockIdentity,
    why: String,
)
    ensures
        found(check, mapping, Err(why)) == Found::Failed,
        found(check, mapping, Ok(None)) == Found::Nothing,
        found(Check::FirstTarget, mapping, Ok(Some(m))) == Found::Nameless <==> m@.dm_name is None,
        check != Check::FirstTarget ==> (found(check, mapping, Ok(Some(m))) == Found::Same
            <==> mapping == Some(m@)),
{
}

/// An obstacle that nothing reported is told in these words.
pub proof fn obstacles_are_told_in_these_words(
    record: crate::state::Record,
    mapping: Option<crate::recover::Node>,
    check: Check,
    reply: Reply,
    obstacle: Obstacle,
    e: ExecError,
)
    requires
        hindered(record, mapping, check, reply, obstacle, e),
    ensures
        obstacle == Obstacle::NotOurs ==> crate::executor::is_identity_error(
            e,
            record.device
                + " no longer has the recorded attachment identity; refusing to disconnect"@,
        ),
        obstacle == Obstacle::Nameless ==> crate::executor::is_identity_error(
            e,
            "verified mapping has no device-mapper name"@,
        ),
        obstacle == Obstacle::Changed ==> crate::executor::is_identity_error(
            e,
            "device-mapper identity changed before direct deactivation"@,
        ),
        obstacle == Obstacle::Remained ==> crate::executor::is_identity_error(
            e,
            "device-mapper target remained after direct deactivation"@,
        ),
        obstacle == Obstacle::Reported && !fits(check, reply) ==> crate::executor::is_identity_error(
            e,
            "unexpected answer"@,
        ),
{
}

} // verus!
