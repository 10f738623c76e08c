//! The order of a run: which action follows which answer while a plan is
//! carried out, and what is taken back when it fails.
//!
//! The machine here knows nothing but the shape of the plan. It is handed one
//! answer at a time and says what to do next. Four rules shape it:
//!
//! - A rollback or a detach takes down nothing unless, immediately before, the
//!   kernel showed the recorded backend and an observation showed what is live;
//!   and a disconnecting step of an attach runs only when the kernel has just
//!   shown the recorded backend.
//! - The record of an attachment is written before its device is connected, and
//!   retired only when nothing of it is left.
//! - A filesystem is mounted only when the backend, the mappings and its own
//!   identity were just verified, and nothing is written to it before the
//!   mounted device was verified too.
//! - A failed step back stops every further one: what lies below a layer that
//!   could not be taken down stays.

use vstd::prelude::*;

use crate::detach::DetachObservation;

verus! {

broadcast use vstd::seq::group_seq_axioms;

/// What the kernel shows as the backend of the recorded device.
#[derive(Debug, Clone, Copy, PartialEq, Eq, Structural)]
pub enum Backend {
    /// The device is not connected.
    Absent,
    /// The recorded connection.
    Ours,
    /// Some other connection.
    Foreign,
    /// It could not be read.
    Unreadable,
}

/// What became of recording the active mappings.
#[derive(Debug, Clone, Copy, PartialEq, Eq, Structural)]
pub enum Capture {
    Proof,
    Nothing,
    Failed,
}

/// How the volume of a growth compares with the size that it is to have.
#[derive(Debug, Clone, Copy, PartialEq, Eq, Structural)]
pub enum Extent {
    /// It has yet to be extended.
    Short,
    /// An earlier attempt at this growth extended it.
    Reached,
    /// The size could not be read, or no size can be aimed at.
    Unknown,
}

/// An answer.
#[derive(Debug, Clone, Copy, PartialEq, Eq, Structural)]
pub enum Event {
    /// The machine was started.
    Start,
    /// What the backend is.
    Backend(Backend),
    /// What is live, if that could be observed.
    Observed(Option<DetachObservation>),
    /// Whether an action succeeded.
    Done(bool),
    /// Whether an activation was attempted, and whether it succeeded.
    Activated { attempted: bool, ok: bool },
    /// What became of recording the active mappings.
    Captured(Capture),
    /// How the volume of a growth compares with its target.
    Sized(Extent),
}

/// What a step of the plan is to the machine.
#[derive(Debug, Clone, Copy, PartialEq, Eq, Structural)]
pub enum StepClass {
    Connect,
    Activate,
    Mount,
    Sentinel,
    Disconnect,
    Extend,
    Plain,
}

/// What kind of run it is.
#[derive(Debug, Clone, Copy, PartialEq, Eq, Structural)]
pub enum Kind {
    /// An attach: whether there is a record already, and whether a device must
    /// be allocated.
    Attach { prior: bool, allocate: bool },
    Detach,
    Grow,
    /// Steps that belong to no attachment.
    Unbound,
}

/// A layer of an attachment, from the top down.
#[derive(Debug, Clone, Copy, PartialEq, Eq, Structural)]
pub enum Layer {
    Mount,
    Group,
    Device,
}

/// What to do next.
#[derive(Debug, Clone, Copy, PartialEq, Eq, Structural)]
pub enum Order {
    /// Probe the backend of the device that the prior record names.
    ProbePrior,
    /// Observe what is live of the prior record's attachment.
    ObservePrior,
    /// Load the NBD module.
    Modprobe,
    /// Choose a free device and bind it into the plan.
    Allocate,
    /// Probe the backend of the device that the plan will connect.
    ProbeTarget,
    /// Draw the identifier of the connection and prepare the record.
    Prepare,
    /// Observe what is live of the prepared attachment.
    ObserveTarget,
    /// Write the prepared record.
    WriteRecord,
    /// Run a step of the plan.
    Run(usize),
    /// Wait until the device of a connecting step is ready.
    WaitReady(usize),
    /// Probe the backend of the recorded device.
    Probe,
    /// Observe what is live of the recorded attachment.
    Observe { allow_missing: bool },
    /// Verify the LVM metadata on the device.
    Preflight,
    /// Write the verified metadata into the record.
    PersistIntent,
    /// Activate exactly the verified group.
    Activate,
    /// Verify the mappings of the active group.
    VerifyActivated,
    /// Record the active mappings.
    Capture,
    /// Write them into the record.
    PersistProof,
    /// Read the identity of the filesystem that a mounting step mounts.
    VerifyFilesystem(usize),
    /// Verify the device below what a mounting step has mounted.
    VerifyDevice(usize),
    /// Read the size of the volume that a step extends.
    ReadSize(usize),
    /// Write the size that the volume is to have into the record.
    PersistTarget,
    /// Extend the volume to that size.
    Extend(usize),
    /// Take the size out of the record again.
    ClearTarget,
    /// Verify that the mappings are those of the verified group.
    VerifyRollback,
    /// Take down a layer of the recorded attachment.
    TakeDown(Layer),
    /// Run the compensation of a step of the plan.
    Undo(usize),
    /// Retire the record.
    Retire,
    /// The run is over.
    Stop(End),
}

/// How a run ended.
#[derive(Debug, Clone, Copy, PartialEq, Eq, Structural)]
pub enum End {
    Finished,
    /// It failed with nothing to take back.
    Refused,
    /// It failed, and this many steps back succeeded and failed.
    RolledBack { rolled_back: usize, failed: usize },
}

/// Why a run failed.
#[derive(Debug, Clone, Copy, PartialEq, Eq, Structural)]
pub enum Fault {
    /// The answer itself was a failure.
    Reported,
    /// The device of the prior record is still connected.
    StillConnected,
    /// Something of the prior attachment is still live.
    PriorLive,
    /// The device that the plan names is connected already.
    AlreadyConnected,
    /// Something of the attachment is live before it was made.
    TargetLive,
    /// The recorded connection is not there.
    NotOurs,
    /// The device has users that do not belong to the attachment.
    InUse,
    /// The backend is gone while something is still live.
    BackendLost,
    /// The attachment is not mounted and active.
    NotMounted,
    /// A layer is still there after it was taken down.
    StillThere,
    /// An activation without an attachment.
    UnboundActivation,
    /// A mount without a verified group below it.
    NotActivated,
    /// A sentinel without a verified mount to write it to.
    NotVerified,
}

/// Where a run stands: which answer it waits for.
#[derive(Debug, Clone, Copy, PartialEq, Eq, Structural)]
pub enum Phase {
    Ready,
    PriorBackend,
    PriorObserve,
    Modprobe,
    Allocate,
    TargetBackend,
    Prepare,
    TargetObserve,
    Writing,
    Connect(usize),
    Waiting(usize),
    Verify(usize),
    Preflight(usize),
    Intent(usize),
    Activate(usize),
    Activated(usize),
    ProofProbe(usize),
    Capture(usize),
    Publish(usize),
    Published(usize),
    MountBackend(usize),
    MountMappings(usize),
    MountFilesystem(usize),
    MountBackendAgain(usize),
    MountMappingsAgain(usize),
    Mounting(usize),
    MountDevice(usize),
    DropBackend(usize),
    Dropping(usize),
    Step(usize),
    RollBackend,
    RollGone,
    RollObserve,
    RollVerify,
    RollRun(Layer),
    RollRetire,
    DetachBackend,
    DetachGone,
    DetachObserve,
    DetachRun(Layer),
    DetachRetire,
    GrowBackend(usize),
    GrowObserve(usize),
    GrowSize(usize),
    GrowTarget(usize),
    GrowBackendAgain(usize),
    GrowObserveAgain(usize),
    GrowExtend(usize),
    GrowRun(usize),
    GrowClear,
    UnboundStep(usize),
    UnboundUndo(usize),
    Stopped,
}

/// The state of a run.
#[derive(Debug, Clone, Copy, PartialEq, Eq, Structural)]
pub struct Control {
    pub kind: Kind,
    pub phase: Phase,
    /// An activation was attempted.
    pub attempted: bool,
    /// The device below a mount of the run was verified.
    pub device_verified: bool,
    /// The failed attach had not yet written its sentinel.
    pub allow_missing: bool,
    /// The layers that were taken down.
    pub mount_down: bool,
    pub group_down: bool,
    pub device_down: bool,
    /// The compensations of an unbound plan that succeeded.
    pub undone: usize,
}

/// A transition: the new state, what to do, and the fault to remember if this
/// answer made the run fail.
#[derive(Debug, Clone, Copy, PartialEq, Eq, Structural)]
pub struct Next {
    pub control: Control,
    pub order: Order,
    pub fault: Option<Fault>,
}

/// The start of a run.
pub open spec fn begun(kind: Kind) -> Control {
    Control {
        kind,
        phase: Phase::Ready,
        attempted: false,
        device_verified: false,
        allow_missing: false,
        mount_down: false,
        group_down: false,
        device_down: false,
        undone: 0,
    }
}

pub fn begin(kind: Kind) -> (r: Control)
    ensures
        r == begun(kind),
{
    Control {
        kind,
        phase: Phase::Ready,
        attempted: false,
        device_verified: false,
        allow_missing: false,
        mount_down: false,
        group_down: false,
        device_down: false,
        undone: 0,
    }
}

// ---------- the transitions ----------

/// Go on with an order.
pub open spec fn to(c: Control, phase: Phase, order: Order) -> Next {
    Next { control: Control { phase, ..c }, order, fault: None }
}

/// End the run.
pub open spec fn stop(c: Control, end: End, fault: Option<Fault>) -> Next {
    Next { control: Control { phase: Phase::Stopped, ..c }, order: Order::Stop(end), fault }
}

/// End a run that has changed nothing.
pub open spec fn refuse(c: Control, fault: Fault) -> Next {
    stop(c, End::Refused, Some(fault))
}

/// The backend that an answer tells.
pub open spec fn backend_of(e: Event) -> Backend {
    match e {
        Event::Backend(b) => b,
        _ => Backend::Unreadable,
    }
}

/// What an answer shows as live.
pub open spec fn seen(e: Event) -> Option<DetachObservation> {
    match e {
        Event::Observed(o) => o,
        _ => None,
    }
}

/// The answer tells of a success.
pub open spec fn succeeded(e: Event) -> bool {
    e == Event::Done(true)
}

/// The fault of a backend that is not the recorded one.
pub open spec fn backend_fault(b: Backend) -> Fault {
    if b == Backend::Unreadable {
        Fault::Reported
    } else {
        Fault::NotOurs
    }
}

/// The steps from `i` on hold one that writes the sentinel.
pub open spec fn sentinel_pending(script: Seq<StepClass>, i: int) -> bool
    decreases script.len() - i,
{
    if i < 0 || i >= script.len() {
        false
    } else {
        script[i] == StepClass::Sentinel || sentinel_pending(script, i + 1)
    }
}

/// How many layers were taken down.
pub open spec fn layers_down(c: Control) -> usize {
    (if c.mount_down {
        1int
    } else {
        0
    } + if c.group_down {
        1int
    } else {
        0
    } + if c.device_down {
        1int
    } else {
        0
    }) as usize
}

/// Step `i` of an attach failed: begin to take it back.
pub open spec fn roll_back(script: Seq<StepClass>, c: Control, i: int, fault: Fault) -> Next {
    Next {
        control: Control {
            phase: Phase::RollBackend,
            allow_missing: sentinel_pending(script, i),
            ..c
        },
        order: Order::Probe,
        fault: Some(fault),
    }
}

/// The rollback ends here: with everything taken back, or with one failure.
pub open spec fn rolled(c: Control, failed: usize) -> Next {
    stop(c, End::RolledBack { rolled_back: layers_down(c), failed }, None)
}

/// Go on with step `i` of an attach.
pub open spec fn enter(script: Seq<StepClass>, c: Control, i: int) -> Next {
    if i < 0 || i >= script.len() {
        stop(c, End::Finished, None)
    } else {
        let at = i as usize;
        match script[i] {
            StepClass::Connect => to(c, Phase::Connect(at), Order::Run(at)),
            StepClass::Activate => to(c, Phase::Preflight(at), Order::Preflight),
            StepClass::Mount => if c.attempted {
                to(c, Phase::MountBackend(at), Order::Probe)
            } else {
                roll_back(script, c, i, Fault::NotActivated)
            },
            StepClass::Disconnect => to(c, Phase::DropBackend(at), Order::Probe),
            StepClass::Sentinel => if c.device_verified {
                to(c, Phase::Step(at), Order::Run(at))
            } else {
                roll_back(script, c, i, Fault::NotVerified)
            },
            _ => to(c, Phase::Step(at), Order::Run(at)),
        }
    }
}

/// The highest layer that is live, if only layers of the attachment are.
pub open spec fn top_layer(o: DetachObservation) -> Option<Layer> {
    if o.mounted {
        Some(Layer::Mount)
    } else if o.vg_active {
        Some(Layer::Group)
    } else if o.nbd_in_use {
        None
    } else {
        Some(Layer::Device)
    }
}

/// The layer was taken down before.
pub open spec fn is_down(c: Control, layer: Layer) -> bool {
    match layer {
        Layer::Mount => c.mount_down,
        Layer::Group => c.group_down,
        Layer::Device => c.device_down,
    }
}

/// The layer was taken down now.
pub open spec fn with_down(c: Control, layer: Layer) -> Control {
    match layer {
        Layer::Mount => Control { mount_down: true, ..c },
        Layer::Group => Control { group_down: true, ..c },
        Layer::Device => Control { device_down: true, ..c },
    }
}

/// Some layer was taken down.
pub open spec fn any_down(c: Control) -> bool {
    c.mount_down || c.group_down || c.device_down
}

/// After the checks of the prior record.
pub open spec fn after_prior(c: Control) -> Next {
    match c.kind {
        Kind::Attach { allocate: true, .. } => to(c, Phase::Modprobe, Order::Modprobe),
        _ => to(c, Phase::TargetBackend, Order::ProbeTarget),
    }
}

/// A detach failed: if it had changed nothing it was refused.
pub open spec fn detach_failed(c: Control, fault: Fault) -> Next {
    stop(
        c,
        if any_down(c) {
            End::RolledBack { rolled_back: 0, failed: 0 }
        } else {
            End::Refused
        },
        Some(fault),
    )
}

/// A growth failed before its step `i`.
pub open spec fn grow_failed(c: Control, i: int, fault: Fault) -> Next {
    stop(
        c,
        if i > 0 {
            End::RolledBack { rolled_back: 0, failed: 0 }
        } else {
            End::Refused
        },
        Some(fault),
    )
}

/// The last mount among the first `n` steps.
pub open spec fn mount_below(script: Seq<StepClass>, n: int) -> Option<int>
    decreases n,
{
    if n <= 0 || n > script.len() {
        None
    } else if script[n - 1] == StepClass::Mount {
        Some(n - 1)
    } else {
        mount_below(script, n - 1)
    }
}

/// Take back the mounts among the first `n` steps of an unbound plan.
pub open spec fn undo_below(script: Seq<StepClass>, c: Control, n: int, fault: Option<Fault>) -> Next {
    match mount_below(script, n) {
        Some(j) => Next {
            control: Control { phase: Phase::UnboundUndo(j as usize), ..c },
            order: Order::Undo(j as usize),
            fault,
        },
        None => stop(c, End::RolledBack { rolled_back: c.undone, failed: 0 }, fault),
    }
}

/// Go on with step `i` of an unbound plan.
pub open spec fn enter_unbound(script: Seq<StepClass>, c: Control, i: int) -> Next {
    if i < 0 || i >= script.len() {
        stop(c, End::Finished, None)
    } else {
        to(c, Phase::UnboundStep(i as usize), Order::Run(i as usize))
    }
}

/// Some step activates a group.
pub open spec fn activates(script: Seq<StepClass>) -> bool {
    exists|i: int| 0 <= i < script.len() && #[trigger] script[i] == StepClass::Activate
}

/// The first order of a run.
#[verifier::opaque]
pub open spec fn opening(script: Seq<StepClass>, c: Control) -> Next {
    match c.kind {
        Kind::Attach { prior: true, .. } => to(c, Phase::PriorBackend, Order::ProbePrior),
        Kind::Attach { .. } => after_prior(c),
        Kind::Detach => to(c, Phase::DetachBackend, Order::Probe),
        Kind::Grow => if script.len() == 0 {
            stop(c, End::Finished, None)
        } else {
            to(c, Phase::GrowBackend(0), Order::Probe)
        },
        Kind::Unbound => if activates(script) {
            refuse(c, Fault::UnboundActivation)
        } else {
            enter_unbound(script, c, 0)
        },
    }
}

/// The preparation of an attach.
#[verifier::opaque]
pub open spec fn preparing(script: Seq<StepClass>, c: Control, e: Event) -> Next {
    match c.phase {
        Phase::PriorBackend => match backend_of(e) {
            Backend::Absent => to(c, Phase::PriorObserve, Order::ObservePrior),
            Backend::Unreadable => refuse(c, Fault::Reported),
            _ => refuse(c, Fault::StillConnected),
        },
        Phase::PriorObserve => match seen(e) {
            None => refuse(c, Fault::Reported),
            Some(o) => if o.is_clear() {
                after_prior(c)
            } else {
                refuse(c, Fault::PriorLive)
            },
        },
        Phase::Modprobe => if succeeded(e) {
            to(c, Phase::Allocate, Order::Allocate)
        } else {
            refuse(c, Fault::Reported)
        },
        Phase::Allocate => if succeeded(e) {
            to(c, Phase::TargetBackend, Order::ProbeTarget)
        } else {
            refuse(c, Fault::Reported)
        },
        Phase::TargetBackend => match backend_of(e) {
            Backend::Absent => to(c, Phase::Prepare, Order::Prepare),
            Backend::Unreadable => refuse(c, Fault::Reported),
            _ => refuse(c, Fault::AlreadyConnected),
        },
        Phase::Prepare => if succeeded(e) {
            to(c, Phase::TargetObserve, Order::ObserveTarget)
        } else {
            refuse(c, Fault::Reported)
        },
        Phase::TargetObserve => match seen(e) {
            None => refuse(c, Fault::Reported),
            Some(o) => if o.is_clear() {
                to(c, Phase::Writing, Order::WriteRecord)
            } else {
                refuse(c, Fault::TargetLive)
            },
        },
        Phase::Writing => if succeeded(e) {
            enter(script, c, 0)
        } else {
            refuse(c, Fault::Reported)
        },
        _ => refuse(c, Fault::Reported),
    }
}

/// The recorded backend must be there before the run goes on.
pub open spec fn when_ours(script: Seq<StepClass>, c: Control, i: int, e: Event, next: Next) -> Next {
    if backend_of(e) == Backend::Ours {
        next
    } else {
        roll_back(script, c, i, backend_fault(backend_of(e)))
    }
}

/// The action must have succeeded before the run goes on.
pub open spec fn when_done(script: Seq<StepClass>, c: Control, i: int, e: Event, next: Next) -> Next {
    if succeeded(e) {
        next
    } else {
        roll_back(script, c, i, Fault::Reported)
    }
}

/// The steps of an attach.
#[verifier::opaque]
pub open spec fn attaching(script: Seq<StepClass>, c: Control, e: Event) -> Next {
    match c.phase {
        Phase::Connect(i) => when_done(
            script,
            c,
            i as int,
            e,
            to(c, Phase::Waiting(i), Order::WaitReady(i)),
        ),
        Phase::Waiting(i) => when_done(
            script,
            c,
            i as int,
            e,
            to(c, Phase::Verify(i), Order::Probe),
        ),
        Phase::Verify(i) => when_ours(script, c, i as int, e, enter(script, c, i + 1)),
        Phase::Preflight(i) => when_done(
            script,
            c,
            i as int,
            e,
            to(c, Phase::Intent(i), Order::PersistIntent),
        ),
        Phase::Intent(i) => when_done(
            script,
            c,
            i as int,
            e,
            to(c, Phase::Activate(i), Order::Activate),
        ),
        Phase::Activate(i) => match e {
            Event::Activated { attempted, ok } => {
                let tried = Control { attempted: c.attempted || attempted, ..c };
                if ok {
                    to(tried, Phase::Activated(i), Order::VerifyActivated)
                } else {
                    roll_back(script, tried, i as int, Fault::Reported)
                }
            },
            _ => roll_back(script, c, i as int, Fault::Reported),
        },
        Phase::Activated(i) => when_done(
            script,
            c,
            i as int,
            e,
            to(c, Phase::ProofProbe(i), Order::Probe),
        ),
        Phase::ProofProbe(i) => when_ours(
            script,
            c,
            i as int,
            e,
            to(c, Phase::Capture(i), Order::Capture),
        ),
        Phase::Capture(i) => match e {
            Event::Captured(Capture::Proof) => to(c, Phase::Publish(i), Order::PersistProof),
            Event::Captured(Capture::Nothing) => enter(script, c, i + 1),
            _ => roll_back(script, c, i as int, Fault::Reported),
        },
        Phase::Publish(i) => when_done(
            script,
            c,
            i as int,
            e,
            to(c, Phase::Published(i), Order::Probe),
        ),
        Phase::Published(i) => when_ours(script, c, i as int, e, enter(script, c, i + 1)),
        Phase::Step(i) => when_done(script, c, i as int, e, enter(script, c, i + 1)),
        _ => refuse(c, Fault::Reported),
    }
}

/// A mounting step of an attach: backend, mappings and filesystem are verified,
/// backend and mappings once more, and after the mount its device.
#[verifier::opaque]
pub open spec fn mounting(script: Seq<StepClass>, c: Control, e: Event) -> Next {
    match c.phase {
        Phase::MountBackend(i) => when_ours(
            script,
            c,
            i as int,
            e,
            to(c, Phase::MountMappings(i), Order::VerifyActivated),
        ),
        Phase::MountMappings(i) => when_done(
            script,
            c,
            i as int,
            e,
            to(c, Phase::MountFilesystem(i), Order::VerifyFilesystem(i)),
        ),
        Phase::MountFilesystem(i) => when_done(
            script,
            c,
            i as int,
            e,
            to(c, Phase::MountBackendAgain(i), Order::Probe),
        ),
        Phase::MountBackendAgain(i) => when_ours(
            script,
            c,
            i as int,
            e,
            to(c, Phase::MountMappingsAgain(i), Order::VerifyActivated),
        ),
        Phase::MountMappingsAgain(i) => when_done(
            script,
            c,
            i as int,
            e,
            to(c, Phase::Mounting(i), Order::Run(i)),
        ),
        Phase::Mounting(i) => when_done(
            script,
            c,
            i as int,
            e,
            to(c, Phase::MountDevice(i), Order::VerifyDevice(i)),
        ),
        Phase::MountDevice(i) => when_done(
            script,
            c,
            i as int,
            e,
            enter(script, Control { device_verified: true, ..c }, i + 1),
        ),
        _ => refuse(c, Fault::Reported),
    }
}

/// A disconnecting step of an attach: it runs only if the recorded backend is
/// still there.
#[verifier::opaque]
pub open spec fn dropping(script: Seq<StepClass>, c: Control, e: Event) -> Next {
    match c.phase {
        Phase::DropBackend(i) => when_ours(
            script,
            c,
            i as int,
            e,
            to(c, Phase::Dropping(i), Order::Run(i)),
        ),
        Phase::Dropping(i) => when_done(script, c, i as int, e, enter(script, c, i + 1)),
        _ => refuse(c, Fault::Reported),
    }
}

/// The rollback of an attach: before every step back the backend is probed and
/// the attachment observed once more.
#[verifier::opaque]
pub open spec fn rolling(c: Control, e: Event) -> Next {
    match c.phase {
        Phase::RollBackend => match backend_of(e) {
            Backend::Ours => to(
                c,
                Phase::RollObserve,
                Order::Observe { allow_missing: c.allow_missing },
            ),
            Backend::Absent => to(
                c,
                Phase::RollGone,
                Order::Observe { allow_missing: c.allow_missing },
            ),
            _ => rolled(c, 1),
        },
        Phase::RollGone => match seen(e) {
            Some(o) => if o.is_clear() {
                to(c, Phase::RollRetire, Order::Retire)
            } else {
                rolled(c, 1)
            },
            None => rolled(c, 1),
        },
        Phase::RollObserve => match seen(e) {
            None => rolled(c, 1),
            Some(o) => match top_layer(o) {
                None => rolled(c, 1),
                Some(layer) => if is_down(c, layer) {
                    rolled(c, 1)
                } else if layer == Layer::Group {
                    if c.attempted {
                        to(c, Phase::RollVerify, Order::VerifyRollback)
                    } else {
                        rolled(c, 1)
                    }
                } else {
                    to(c, Phase::RollRun(layer), Order::TakeDown(layer))
                },
            },
        },
        Phase::RollVerify => if succeeded(e) {
            to(c, Phase::RollRun(Layer::Group), Order::TakeDown(Layer::Group))
        } else {
            rolled(c, 1)
        },
        Phase::RollRun(layer) => if succeeded(e) {
            to(with_down(c, layer), Phase::RollBackend, Order::Probe)
        } else {
            rolled(c, 1)
        },
        Phase::RollRetire => rolled(c, 0),
        _ => refuse(c, Fault::Reported),
    }
}

/// A detach.
#[verifier::opaque]
pub open spec fn detaching(c: Control, e: Event) -> Next {
    match c.phase {
        Phase::DetachBackend => match backend_of(e) {
            Backend::Ours => to(c, Phase::DetachObserve, Order::Observe { allow_missing: false }),
            Backend::Absent => if any_down(c) {
                detach_failed(c, Fault::NotOurs)
            } else {
                to(c, Phase::DetachGone, Order::Observe { allow_missing: false })
            },
            b => detach_failed(c, backend_fault(b)),
        },
        Phase::DetachGone => match seen(e) {
            Some(o) => if o.is_clear() {
                to(c, Phase::DetachRetire, Order::Retire)
            } else {
                detach_failed(c, Fault::BackendLost)
            },
            None => detach_failed(c, Fault::Reported),
        },
        Phase::DetachObserve => match seen(e) {
            None => detach_failed(c, Fault::Reported),
            Some(o) => match top_layer(o) {
                None => detach_failed(c, Fault::InUse),
                Some(layer) => if is_down(c, layer) {
                    detach_failed(c, Fault::StillThere)
                } else {
                    to(c, Phase::DetachRun(layer), Order::TakeDown(layer))
                },
            },
        },
        Phase::DetachRun(layer) => if !succeeded(e) {
            stop(c, End::RolledBack { rolled_back: 0, failed: 0 }, Some(Fault::Reported))
        } else if layer == Layer::Device {
            to(with_down(c, layer), Phase::DetachRetire, Order::Retire)
        } else {
            to(with_down(c, layer), Phase::DetachBackend, Order::Probe)
        },
        Phase::DetachRetire => if succeeded(e) {
            stop(c, End::Finished, None)
        } else {
            refuse(c, Fault::Reported)
        },
        _ => refuse(c, Fault::Reported),
    }
}

/// Some step extends a volume.
pub open spec fn extends(script: Seq<StepClass>) -> bool {
    exists|i: int| 0 <= i < script.len() && #[trigger] script[i] == StepClass::Extend
}

/// Go on with step `i` of a growth. Once all of them are done, the size that
/// was aimed at leaves the record.
pub open spec fn enter_growth(script: Seq<StepClass>, c: Control, i: int) -> Next {
    if 0 <= i < script.len() {
        to(c, Phase::GrowBackend(i as usize), Order::Probe)
    } else if extends(script) {
        to(c, Phase::GrowClear, Order::ClearTarget)
    } else {
        stop(c, End::Finished, None)
    }
}

/// The attachment must be mounted and active before the growth goes on.
pub open spec fn when_live(c: Control, i: int, e: Event, next: Next) -> Next {
    match seen(e) {
        None => grow_failed(c, i, Fault::Reported),
        Some(o) => if o.mounted && o.vg_active {
            next
        } else {
            grow_failed(c, i, Fault::NotMounted)
        },
    }
}

/// A growth: before every step the backend is probed and the attachment must be
/// mounted and active. A volume is extended to a size that the record holds
/// before the extension, so that a repeated growth aims at the same size.
#[verifier::opaque]
pub open spec fn growing(script: Seq<StepClass>, c: Control, e: Event) -> Next {
    match c.phase {
        Phase::GrowBackend(i) => match backend_of(e) {
            Backend::Ours => to(c, Phase::GrowObserve(i), Order::Observe { allow_missing: false }),
            b => grow_failed(c, i as int, backend_fault(b)),
        },
        Phase::GrowObserve(i) => when_live(
            c,
            i as int,
            e,
            if script[i as int] == StepClass::Extend {
                to(c, Phase::GrowSize(i), Order::ReadSize(i))
            } else {
                to(c, Phase::GrowRun(i), Order::Run(i))
            },
        ),
        Phase::GrowSize(i) => match e {
            Event::Sized(Extent::Short) => to(c, Phase::GrowTarget(i), Order::PersistTarget),
            Event::Sized(Extent::Reached) => enter_growth(script, c, i + 1),
            _ => grow_failed(c, i as int, Fault::Reported),
        },
        Phase::GrowTarget(i) => if succeeded(e) {
            to(c, Phase::GrowBackendAgain(i), Order::Probe)
        } else {
            grow_failed(c, i as int, Fault::Reported)
        },
        Phase::GrowBackendAgain(i) => match backend_of(e) {
            Backend::Ours => to(
                c,
                Phase::GrowObserveAgain(i),
                Order::Observe { allow_missing: false },
            ),
            b => grow_failed(c, i as int, backend_fault(b)),
        },
        Phase::GrowObserveAgain(i) => when_live(
            c,
            i as int,
            e,
            to(c, Phase::GrowExtend(i), Order::Extend(i)),
        ),
        Phase::GrowExtend(i) | Phase::GrowRun(i) => if succeeded(e) {
            enter_growth(script, c, i + 1)
        } else {
            stop(c, End::RolledBack { rolled_back: 0, failed: 0 }, Some(Fault::Reported))
        },
        Phase::GrowClear => if succeeded(e) {
            stop(c, End::Finished, None)
        } else {
            stop(c, End::RolledBack { rolled_back: 0, failed: 0 }, Some(Fault::Reported))
        },
        _ => refuse(c, Fault::Reported),
    }
}

/// Steps that belong to no attachment.
#[verifier::opaque]
pub open spec fn unbound(script: Seq<StepClass>, c: Control, e: Event) -> Next {
    match c.phase {
        Phase::UnboundStep(i) => if succeeded(e) {
            enter_unbound(script, c, i + 1)
        } else {
            undo_below(script, c, i as int, Some(Fault::Reported))
        },
        Phase::UnboundUndo(j) => if succeeded(e) {
            undo_below(script, Control { undone: (c.undone + 1) as usize, ..c }, j as int, None)
        } else {
            stop(c, End::RolledBack { rolled_back: c.undone, failed: 1 }, None)
        },
        _ => refuse(c, Fault::Reported),
    }
}

/// What follows an answer.
pub open spec fn transition(script: Seq<StepClass>, c: Control, e: Event) -> Next {
    match c.phase {
        Phase::Ready => opening(script, c),
        Phase::PriorBackend
        | Phase::PriorObserve
        | Phase::Modprobe
        | Phase::Allocate
        | Phase::TargetBackend
        | Phase::Prepare
        | Phase::TargetObserve
        | Phase::Writing => preparing(script, c, e),
        Phase::Connect(_)
        | Phase::Waiting(_)
        | Phase::Verify(_)
        | Phase::Preflight(_)
        | Phase::Intent(_)
        | Phase::Activate(_)
        | Phase::Activated(_)
        | Phase::ProofProbe(_)
        | Phase::Capture(_)
        | Phase::Publish(_)
        | Phase::Published(_)
        | Phase::Step(_) => attaching(script, c, e),
        Phase::MountBackend(_)
        | Phase::MountMappings(_)
        | Phase::MountFilesystem(_)
        | Phase::MountBackendAgain(_)
        | Phase::MountMappingsAgain(_)
        | Phase::Mounting(_)
        | Phase::MountDevice(_) => mounting(script, c, e),
        Phase::DropBackend(_) | Phase::Dropping(_) => dropping(script, c, e),
        Phase::RollBackend
        | Phase::RollGone
        | Phase::RollObserve
        | Phase::RollVerify
        | Phase::RollRun(_)
        | Phase::RollRetire => rolling(c, e),
        Phase::DetachBackend
        | Phase::DetachGone
        | Phase::DetachObserve
        | Phase::DetachRun(_)
        | Phase::DetachRetire => detaching(c, e),
        Phase::GrowBackend(_)
        | Phase::GrowObserve(_)
        | Phase::GrowSize(_)
        | Phase::GrowTarget(_)
        | Phase::GrowBackendAgain(_)
        | Phase::GrowObserveAgain(_)
        | Phase::GrowExtend(_)
        | Phase::GrowRun(_)
        | Phase::GrowClear => growing(script, c, e),
        Phase::UnboundStep(_) | Phase::UnboundUndo(_) => unbound(script, c, e),
        Phase::Stopped => stop(c, End::Refused, Some(Fault::Reported)),
    }
}

/// The state belongs to a run of that many steps.
pub open spec fn fits(script: Seq<StepClass>, c: Control) -> bool {
    match c.phase {
        Phase::Connect(i)
        | Phase::Waiting(i)
        | Phase::Verify(i)
        | Phase::Preflight(i)
        | Phase::Intent(i)
        | Phase::Activate(i)
        | Phase::Activated(i)
        | Phase::ProofProbe(i)
        | Phase::Capture(i)
        | Phase::Publish(i)
        | Phase::Published(i)
        | Phase::MountBackend(i)
        | Phase::MountMappings(i)
        | Phase::MountFilesystem(i)
        | Phase::MountBackendAgain(i)
        | Phase::MountMappingsAgain(i)
        | Phase::Mounting(i)
        | Phase::MountDevice(i)
        | Phase::DropBackend(i)
        | Phase::Dropping(i)
        | Phase::Step(i)
        | Phase::GrowBackend(i)
        | Phase::GrowObserve(i)
        | Phase::GrowSize(i)
        | Phase::GrowTarget(i)
        | Phase::GrowBackendAgain(i)
        | Phase::GrowObserveAgain(i)
        | Phase::GrowExtend(i)
        | Phase::GrowRun(i) => i < script.len(),
        Phase::UnboundStep(i) => i < script.len() && c.undone == 0,
        Phase::UnboundUndo(j) => j < script.len() && c.undone + j < script.len(),
        Phase::Ready => c.undone == 0,
        _ => true,
    }
}

fn go(c: Control, phase: Phase, order: Order) -> (r: Next)
    ensures
        r == to(c, phase, order),
{
    let mut control = c;
    control.phase = phase;
    Next { control, order, fault: None }
}

fn halt(c: Control, end: End, fault: Option<Fault>) -> (r: Next)
    ensures
        r == stop(c, end, fault),
{
    let mut control = c;
    control.phase = Phase::Stopped;
    Next { control, order: Order::Stop(end), fault }
}

fn decline(c: Control, fault: Fault) -> (r: Next)
    ensures
        r == refuse(c, fault),
{
    halt(c, End::Refused, Some(fault))
}

fn told_backend(e: Event) -> (r: Backend)
    ensures
        r == backend_of(e),
{
    match e {
        Event::Backend(b) => b,
        _ => Backend::Unreadable,
    }
}

fn told_layers(e: Event) -> (r: Option<DetachObservation>)
    ensures
        r == seen(e),
{
    match e {
        Event::Observed(o) => o,
        _ => None,
    }
}

fn told_success(e: Event) -> (r: bool)
    ensures
        r == succeeded(e),
{
    match e {
        Event::Done(ok) => ok,
        _ => false,
    }
}

fn fault_of(b: Backend) -> (r: Fault)
    ensures
        r == backend_fault(b),
{
    match b {
        Backend::Unreadable => Fault::Reported,
        _ => Fault::NotOurs,
    }
}

fn is_sentinel_pending(script: &Vec<StepClass>, i: usize) -> (r: bool)
    ensures
        r == sentinel_pending(script@, i as int),
{
    let mut k: usize = i;
    while k < script.len()
        invariant
            i <= k,
            sentinel_pending(script@, i as int) == sentinel_pending(script@, k as int),
        decreases script.len() - k,
    {
        if script[k] == StepClass::Sentinel {
            return true;
        }
        k += 1;
    }
    false
}

fn count_down(c: Control) -> (r: usize)
    ensures
        r == layers_down(c),
{
    let mut n: usize = 0;
    if c.mount_down {
        n += 1;
    }
    if c.group_down {
        n += 1;
    }
    if c.device_down {
        n += 1;
    }
    n
}

fn begin_rollback(script: &Vec<StepClass>, c: Control, i: usize, fault: Fault) -> (r: Next)
    ensures
        r == roll_back(script@, c, i as int, fault),
{
    let mut control = c;
    control.phase = Phase::RollBackend;
    control.allow_missing = is_sentinel_pending(script, i);
    Next { control, order: Order::Probe, fault: Some(fault) }
}

fn end_rollback(c: Control, failed: usize) -> (r: Next)
    ensures
        r == rolled(c, failed),
{
    halt(c, End::RolledBack { rolled_back: count_down(c), failed }, None)
}

fn enter_step(script: &Vec<StepClass>, c: Control, i: usize) -> (r: Next)
    ensures
        r == enter(script@, c, i as int),
        fits(script@, r.control),
{
    if i >= script.len() {
        return halt(c, End::Finished, None);
    }
    match script[i] {
        StepClass::Connect => go(c, Phase::Connect(i), Order::Run(i)),
        StepClass::Activate => go(c, Phase::Preflight(i), Order::Preflight),
        StepClass::Mount => if c.attempted {
            go(c, Phase::MountBackend(i), Order::Probe)
        } else {
            begin_rollback(script, c, i, Fault::NotActivated)
        },
        StepClass::Disconnect => go(c, Phase::DropBackend(i), Order::Probe),
        StepClass::Sentinel => if c.device_verified {
            go(c, Phase::Step(i), Order::Run(i))
        } else {
            begin_rollback(script, c, i, Fault::NotVerified)
        },
        _ => go(c, Phase::Step(i), Order::Run(i)),
    }
}

fn highest_layer(o: DetachObservation) -> (r: Option<Layer>)
    ensures
        r == top_layer(o),
{
    if o.mounted {
        Some(Layer::Mount)
    } else if o.vg_active {
        Some(Layer::Group)
    } else if o.nbd_in_use {
        None
    } else {
        Some(Layer::Device)
    }
}

fn was_taken_down(c: Control, layer: Layer) -> (r: bool)
    ensures
        r == is_down(c, layer),
{
    match layer {
        Layer::Mount => c.mount_down,
        Layer::Group => c.group_down,
        Layer::Device => c.device_down,
    }
}

fn mark_down(c: Control, layer: Layer) -> (r: Control)
    ensures
        r == with_down(c, layer),
{
    let mut control = c;
    match layer {
        Layer::Mount => {
            control.mount_down = true;
        },
        Layer::Group => {
            control.group_down = true;
        },
        Layer::Device => {
            control.device_down = true;
        },
    }
    control
}

fn leave_prior(c: Control) -> (r: Next)
    ensures
        r == after_prior(c),
{
    match c.kind {
        Kind::Attach { allocate: true, .. } => go(c, Phase::Modprobe, Order::Modprobe),
        _ => go(c, Phase::TargetBackend, Order::ProbeTarget),
    }
}

fn fail_detach(c: Control, fault: Fault) -> (r: Next)
    ensures
        r == detach_failed(c, fault),
{
    if c.mount_down || c.group_down || c.device_down {
        halt(c, End::RolledBack { rolled_back: 0, failed: 0 }, Some(fault))
    } else {
        decline(c, fault)
    }
}

fn fail_growth(c: Control, i: usize, fault: Fault) -> (r: Next)
    ensures
        r == grow_failed(c, i as int, fault),
{
    if i > 0 {
        halt(c, End::RolledBack { rolled_back: 0, failed: 0 }, Some(fault))
    } else {
        decline(c, fault)
    }
}

fn find_mount_below(script: &Vec<StepClass>, n: usize) -> (r: Option<usize>)
    requires
        n <= script@.len(),
    ensures
        match r {
            Some(j) => mount_below(script@, n as int) == Some(j as int) && j < n,
            None => mount_below(script@, n as int) is None,
        },
{
    let mut k: usize = n;
    while k > 0
        invariant
            k <= n <= script@.len(),
            mount_below(script@, n as int) == mount_below(script@, k as int),
        decreases k,
    {
        if script[k - 1] == StepClass::Mount {
            return Some(k - 1);
        }
        k -= 1;
    }
    None
}

fn step_back(script: &Vec<StepClass>, c: Control, n: usize, fault: Option<Fault>) -> (r: Next)
    requires
        n <= script@.len(),
        c.undone + n <= script@.len(),
    ensures
        r == undo_below(script@, c, n as int, fault),
        fits(script@, r.control),
{
    match find_mount_below(script, n) {
        Some(j) => {
            let mut control = c;
            control.phase = Phase::UnboundUndo(j);
            Next { control, order: Order::Undo(j), fault }
        },
        None => halt(c, End::RolledBack { rolled_back: c.undone, failed: 0 }, fault),
    }
}

fn enter_unbound_step(script: &Vec<StepClass>, c: Control, i: usize) -> (r: Next)
    requires
        c.undone == 0,
    ensures
        r == enter_unbound(script@, c, i as int),
        fits(script@, r.control),
{
    if i >= script.len() {
        halt(c, End::Finished, None)
    } else {
        go(c, Phase::UnboundStep(i), Order::Run(i))
    }
}

fn has_activation(script: &Vec<StepClass>) -> (r: bool)
    ensures
        r == activates(script@),
{
    let mut i: usize = 0;
    while i < script.len()
        invariant
            i <= script.len(),
            forall|k: int| 0 <= k < i ==> #[trigger] script@[k] != StepClass::Activate,
        decreases script.len() - i,
    {
        if script[i] == StepClass::Activate {
            return true;
        }
        i += 1;
    }
    false
}

fn open(script: &Vec<StepClass>, c: Control) -> (r: Next)
    requires
        c.undone == 0,
    ensures
        r == opening(script@, c),
        fits(script@, r.control),
{
    proof {
        reveal(opening);
    }
    match c.kind {
        Kind::Attach { prior: true, .. } => go(c, Phase::PriorBackend, Order::ProbePrior),
        Kind::Attach { .. } => leave_prior(c),
        Kind::Detach => go(c, Phase::DetachBackend, Order::Probe),
        Kind::Grow => if script.len() == 0 {
            halt(c, End::Finished, None)
        } else {
            go(c, Phase::GrowBackend(0), Order::Probe)
        },
        Kind::Unbound => if has_activation(script) {
            decline(c, Fault::UnboundActivation)
        } else {
            enter_unbound_step(script, c, 0)
        },
    }
}

#[verifier::rlimit(50)]
fn prepare(script: &Vec<StepClass>, c: Control, e: Event) -> (r: Next)
    ensures
        r == preparing(script@, c, e),
        fits(script@, r.control),
{
    proof {
        reveal(preparing);
    }
    match c.phase {
        Phase::PriorBackend => match told_backend(e) {
            Backend::Absent => go(c, Phase::PriorObserve, Order::ObservePrior),
            Backend::Unreadable => decline(c, Fault::Reported),
            _ => decline(c, Fault::StillConnected),
        },
        Phase::PriorObserve => match told_layers(e) {
            None => decline(c, Fault::Reported),
            Some(o) => if o.clear() {
                leave_prior(c)
            } else {
                decline(c, Fault::PriorLive)
            },
        },
        Phase::Modprobe => if told_success(e) {
            go(c, Phase::Allocate, Order::Allocate)
        } else {
            decline(c, Fault::Reported)
        },
        Phase::Allocate => if told_success(e) {
            go(c, Phase::TargetBackend, Order::ProbeTarget)
        } else {
            decline(c, Fault::Reported)
        },
        Phase::TargetBackend => match told_backend(e) {
            Backend::Absent => go(c, Phase::Prepare, Order::Prepare),
            Backend::Unreadable => decline(c, Fault::Reported),
            _ => decline(c, Fault::AlreadyConnected),
        },
        Phase::Prepare => if told_success(e) {
            go(c, Phase::TargetObserve, Order::ObserveTarget)
        } else {
            decline(c, Fault::Reported)
        },
        Phase::TargetObserve => match told_layers(e) {
            None => decline(c, Fault::Reported),
            Some(o) => if o.clear() {
                go(c, Phase::Writing, Order::WriteRecord)
            } else {
                decline(c, Fault::TargetLive)
            },
        },
        Phase::Writing => if told_success(e) {
            enter_step(script, c, 0)
        } else {
            decline(c, Fault::Reported)
        },
        _ => decline(c, Fault::Reported),
    }
}

fn go_on_if_done(script: &Vec<StepClass>, c: Control, i: usize, e: Event, next: Next) -> (r: Next)
    requires
        fits(script@, next.control),
    ensures
        r == when_done(script@, c, i as int, e, next),
        fits(script@, r.control),
{
    if told_success(e) {
        next
    } else {
        begin_rollback(script, c, i, Fault::Reported)
    }
}

fn go_on_if_ours(script: &Vec<StepClass>, c: Control, i: usize, e: Event, next: Next) -> (r: Next)
    requires
        fits(script@, next.control),
    ensures
        r == when_ours(script@, c, i as int, e, next),
        fits(script@, r.control),
{
    let b = told_backend(e);
    match b {
        Backend::Ours => next,
        _ => begin_rollback(script, c, i, fault_of(b)),
    }
}

#[verifier::rlimit(50)]
fn attach(script: &Vec<StepClass>, c: Control, e: Event) -> (r: Next)
    requires
        fits(script@, c),
    ensures
        r == attaching(script@, c, e),
        fits(script@, r.control),
{
    proof {
        reveal(attaching);
    }
    let ghost steps = script.len();
    match c.phase {
        Phase::Connect(i) => go_on_if_done(
            script,
            c,
            i,
            e,
            go(c, Phase::Waiting(i), Order::WaitReady(i)),
        ),
        Phase::Waiting(i) => go_on_if_done(
            script,
            c,
            i,
            e,
            go(c, Phase::Verify(i), Order::Probe),
        ),
        Phase::Verify(i) => go_on_if_ours(script, c, i, e, enter_step(script, c, i + 1)),
        Phase::Preflight(i) => go_on_if_done(
            script,
            c,
            i,
            e,
            go(c, Phase::Intent(i), Order::PersistIntent),
        ),
        Phase::Intent(i) => go_on_if_done(
            script,
            c,
            i,
            e,
            go(c, Phase::Activate(i), Order::Activate),
        ),
        Phase::Activate(i) => match e {
            Event::Activated { attempted, ok } => {
                let mut tried = c;
                tried.attempted = c.attempted || attempted;
                if ok {
                    go(tried, Phase::Activated(i), Order::VerifyActivated)
                } else {
                    begin_rollback(script, tried, i, Fault::Reported)
                }
            },
            _ => begin_rollback(script, c, i, Fault::Reported),
        },
        Phase::Activated(i) => go_on_if_done(
            script,
            c,
            i,
            e,
            go(c, Phase::ProofProbe(i), Order::Probe),
        ),
        Phase::ProofProbe(i) => go_on_if_ours(
            script,
            c,
            i,
            e,
            go(c, Phase::Capture(i), Order::Capture),
        ),
        Phase::Capture(i) => match e {
            Event::Captured(Capture::Proof) => go(c, Phase::Publish(i), Order::PersistProof),
            Event::Captured(Capture::Nothing) => enter_step(script, c, i + 1),
            _ => begin_rollback(script, c, i, Fault::Reported),
        },
        Phase::Publish(i) => go_on_if_done(
            script,
            c,
            i,
            e,
            go(c, Phase::Published(i), Order::Probe),
        ),
        Phase::Published(i) => go_on_if_ours(script, c, i, e, enter_step(script, c, i + 1)),
        Phase::Step(i) => go_on_if_done(script, c, i, e, enter_step(script, c, i + 1)),
        _ => decline(c, Fault::Reported),
    }
}

fn confirm_device(c: Control) -> (r: Control)
    ensures
        r == (Control { device_verified: true, ..c }),
{
    let mut control = c;
    control.device_verified = true;
    control
}

#[verifier::rlimit(50)]
fn mount(script: &Vec<StepClass>, c: Control, e: Event) -> (r: Next)
    requires
        fits(script@, c),
    ensures
        r == mounting(script@, c, e),
        fits(script@, r.control),
{
    proof {
        reveal(mounting);
    }
    let ghost steps = script.len();
    match c.phase {
        Phase::MountBackend(i) => go_on_if_ours(
            script,
            c,
            i,
            e,
            go(c, Phase::MountMappings(i), Order::VerifyActivated),
        ),
        Phase::MountMappings(i) => go_on_if_done(
            script,
            c,
            i,
            e,
            go(c, Phase::MountFilesystem(i), Order::VerifyFilesystem(i)),
        ),
        Phase::MountFilesystem(i) => go_on_if_done(
            script,
            c,
            i,
            e,
            go(c, Phase::MountBackendAgain(i), Order::Probe),
        ),
        Phase::MountBackendAgain(i) => go_on_if_ours(
            script,
            c,
            i,
            e,
            go(c, Phase::MountMappingsAgain(i), Order::VerifyActivated),
        ),
        Phase::MountMappingsAgain(i) => go_on_if_done(
            script,
            c,
            i,
            e,
            go(c, Phase::Mounting(i), Order::Run(i)),
        ),
        Phase::Mounting(i) => go_on_if_done(
            script,
            c,
            i,
            e,
            go(c, Phase::MountDevice(i), Order::VerifyDevice(i)),
        ),
        Phase::MountDevice(i) => go_on_if_done(
            script,
            c,
            i,
            e,
            enter_step(script, confirm_device(c), i + 1),
        ),
        _ => decline(c, Fault::Reported),
    }
}

fn drop_device(script: &Vec<StepClass>, c: Control, e: Event) -> (r: Next)
    requires
        fits(script@, c),
    ensures
        r == dropping(script@, c, e),
        fits(script@, r.control),
{
    proof {
        reveal(dropping);
    }
    let ghost steps = script.len();
    match c.phase {
        Phase::DropBackend(i) => go_on_if_ours(
            script,
            c,
            i,
            e,
            go(c, Phase::Dropping(i), Order::Run(i)),
        ),
        Phase::Dropping(i) => go_on_if_done(script, c, i, e, enter_step(script, c, i + 1)),
        _ => decline(c, Fault::Reported),
    }
}

fn roll(c: Control, e: Event) -> (r: Next)
    ensures
        r == rolling(c, e),
        forall|script: Seq<StepClass>| #[trigger] fits(script, r.control),
{
    proof {
        reveal(rolling);
    }
    match c.phase {
        Phase::RollBackend => match told_backend(e) {
            Backend::Ours => go(
                c,
                Phase::RollObserve,
                Order::Observe { allow_missing: c.allow_missing },
            ),
            Backend::Absent => go(
                c,
                Phase::RollGone,
                Order::Observe { allow_missing: c.allow_missing },
            ),
            _ => end_rollback(c, 1),
        },
        Phase::RollGone => match told_layers(e) {
            Some(o) => if o.clear() {
                go(c, Phase::RollRetire, Order::Retire)
            } else {
                end_rollback(c, 1)
            },
            None => end_rollback(c, 1),
        },
        Phase::RollObserve => match told_layers(e) {
            None => end_rollback(c, 1),
            Some(o) => match highest_layer(o) {
                None => end_rollback(c, 1),
                Some(layer) => if was_taken_down(c, layer) {
                    end_rollback(c, 1)
                } else if layer == Layer::Group {
                    if c.attempted {
                        go(c, Phase::RollVerify, Order::VerifyRollback)
                    } else {
                        end_rollback(c, 1)
                    }
                } else {
                    go(c, Phase::RollRun(layer), Order::TakeDown(layer))
                },
            },
        },
        Phase::RollVerify => if told_success(e) {
            go(c, Phase::RollRun(Layer::Group), Order::TakeDown(Layer::Group))
        } else {
            end_rollback(c, 1)
        },
        Phase::RollRun(layer) => if told_success(e) {
            go(mark_down(c, layer), Phase::RollBackend, Order::Probe)
        } else {
            end_rollback(c, 1)
        },
        Phase::RollRetire => end_rollback(c, 0),
        _ => decline(c, Fault::Reported),
    }
}

fn detach(c: Control, e: Event) -> (r: Next)
    ensures
        r == detaching(c, e),
        forall|script: Seq<StepClass>| #[trigger] fits(script, r.control),
{
    proof {
        reveal(detaching);
    }
    match c.phase {
        Phase::DetachBackend => {
            let b = told_backend(e);
            match b {
                Backend::Ours => go(
                    c,
                    Phase::DetachObserve,
                    Order::Observe { allow_missing: false },
                ),
                Backend::Absent => if c.mount_down || c.group_down || c.device_down {
                    fail_detach(c, Fault::NotOurs)
                } else {
                    go(c, Phase::DetachGone, Order::Observe { allow_missing: false })
                },
                _ => fail_detach(c, fault_of(b)),
            }
        },
        Phase::DetachGone => match told_layers(e) {
            Some(o) => if o.clear() {
                go(c, Phase::DetachRetire, Order::Retire)
            } else {
                fail_detach(c, Fault::BackendLost)
            },
            None => fail_detach(c, Fault::Reported),
        },
        Phase::DetachObserve => match told_layers(e) {
            None => fail_detach(c, Fault::Reported),
            Some(o) => match highest_layer(o) {
                None => fail_detach(c, Fault::InUse),
                Some(layer) => if was_taken_down(c, layer) {
                    fail_detach(c, Fault::StillThere)
                } else {
                    go(c, Phase::DetachRun(layer), Order::TakeDown(layer))
                },
            },
        },
        Phase::DetachRun(layer) => if !told_success(e) {
            halt(c, End::RolledBack { rolled_back: 0, failed: 0 }, Some(Fault::Reported))
        } else if layer == Layer::Device {
            go(mark_down(c, layer), Phase::DetachRetire, Order::Retire)
        } else {
            go(mark_down(c, layer), Phase::DetachBackend, Order::Probe)
        },
        Phase::DetachRetire => if told_success(e) {
            halt(c, End::Finished, None)
        } else {
            decline(c, Fault::Reported)
        },
        _ => decline(c, Fault::Reported),
    }
}

fn has_extension(script: &Vec<StepClass>) -> (r: bool)
    ensures
        r == extends(script@),
{
    let mut i: usize = 0;
    while i < script.len()
        invariant
            i <= script.len(),
            forall|k: int| 0 <= k < i ==> #[trigger] script@[k] != StepClass::Extend,
        decreases script.len() - i,
    {
        if script[i] == StepClass::Extend {
            return true;
        }
        i += 1;
    }
    false
}

fn enter_growth_step(script: &Vec<StepClass>, c: Control, i: usize) -> (r: Next)
    ensures
        r == enter_growth(script@, c, i as int),
        fits(script@, r.control),
{
    if i < script.len() {
        go(c, Phase::GrowBackend(i), Order::Probe)
    } else if has_extension(script) {
        go(c, Phase::GrowClear, Order::ClearTarget)
    } else {
        halt(c, End::Finished, None)
    }
}

fn go_on_if_live(c: Control, i: usize, e: Event, next: Next) -> (r: Next)
    ensures
        r == when_live(c, i as int, e, next),
{
    match told_layers(e) {
        None => fail_growth(c, i, Fault::Reported),
        Some(o) => if o.mounted && o.vg_active {
            next
        } else {
            fail_growth(c, i, Fault::NotMounted)
        },
    }
}

fn grow(script: &Vec<StepClass>, c: Control, e: Event) -> (r: Next)
    requires
        fits(script@, c),
    ensures
        r == growing(script@, c, e),
        fits(script@, r.control),
{
    proof {
        reveal(growing);
    }
    let ghost steps = script.len();
    match c.phase {
        Phase::GrowBackend(i) => {
            let b = told_backend(e);
            match b {
                Backend::Ours => go(
                    c,
                    Phase::GrowObserve(i),
                    Order::Observe { allow_missing: false },
                ),
                _ => fail_growth(c, i, fault_of(b)),
            }
        },
        Phase::GrowObserve(i) => go_on_if_live(
            c,
            i,
            e,
            if script[i] == StepClass::Extend {
                go(c, Phase::GrowSize(i), Order::ReadSize(i))
            } else {
                go(c, Phase::GrowRun(i), Order::Run(i))
            },
        ),
        Phase::GrowSize(i) => match e {
            Event::Sized(Extent::Short) => go(c, Phase::GrowTarget(i), Order::PersistTarget),
            Event::Sized(Extent::Reached) => enter_growth_step(script, c, i + 1),
            _ => fail_growth(c, i, Fault::Reported),
        },
        Phase::GrowTarget(i) => if told_success(e) {
            go(c, Phase::GrowBackendAgain(i), Order::Probe)
        } else {
            fail_growth(c, i, Fault::Reported)
        },
        Phase::GrowBackendAgain(i) => {
            let b = told_backend(e);
            match b {
                Backend::Ours => go(
                    c,
                    Phase::GrowObserveAgain(i),
                    Order::Observe { allow_missing: false },
                ),
                _ => fail_growth(c, i, fault_of(b)),
            }
        },
        Phase::GrowObserveAgain(i) => go_on_if_live(
            c,
            i,
            e,
            go(c, Phase::GrowExtend(i), Order::Extend(i)),
        ),
        Phase::GrowExtend(i) | Phase::GrowRun(i) => if told_success(e) {
            enter_growth_step(script, c, i + 1)
        } else {
            halt(c, End::RolledBack { rolled_back: 0, failed: 0 }, Some(Fault::Reported))
        },
        Phase::GrowClear => if told_success(e) {
            halt(c, End::Finished, None)
        } else {
            halt(c, End::RolledBack { rolled_back: 0, failed: 0 }, Some(Fault::Reported))
        },
        _ => decline(c, Fault::Reported),
    }
}

fn run_unbound(script: &Vec<StepClass>, c: Control, e: Event) -> (r: Next)
    requires
        fits(script@, c),
    ensures
        r == unbound(script@, c, e),
        fits(script@, r.control),
{
    proof {
        reveal(unbound);
    }
    let ghost steps = script.len();
    match c.phase {
        Phase::UnboundStep(i) => if told_success(e) {
            enter_unbound_step(script, c, i + 1)
        } else {
            step_back(script, c, i, Some(Fault::Reported))
        },
        Phase::UnboundUndo(j) => if told_success(e) {
            let mut more = c;
            more.undone = c.undone + 1;
            step_back(script, more, j, None)
        } else {
            halt(c, End::RolledBack { rolled_back: c.undone, failed: 1 }, None)
        },
        _ => decline(c, Fault::Reported),
    }
}

/// What follows an answer.
pub fn advance(script: &Vec<StepClass>, c: Control, e: Event) -> (r: Next)
    requires
        fits(script@, c),
    ensures
        r == transition(script@, c, e),
        fits(script@, r.control),
{
    match c.phase {
        Phase::Ready => open(script, c),
        Phase::PriorBackend
        | Phase::PriorObserve
        | Phase::Modprobe
        | Phase::Allocate
        | Phase::TargetBackend
        | Phase::Prepare
        | Phase::TargetObserve
        | Phase::Writing => prepare(script, c, e),
        Phase::Connect(_)
        | Phase::Waiting(_)
        | Phase::Verify(_)
        | Phase::Preflight(_)
        | Phase::Intent(_)
        | Phase::Activate(_)
        | Phase::Activated(_)
        | Phase::ProofProbe(_)
        | Phase::Capture(_)
        | Phase::Publish(_)
        | Phase::Published(_)
        | Phase::Step(_) => attach(script, c, e),
        Phase::MountBackend(_)
        | Phase::MountMappings(_)
        | Phase::MountFilesystem(_)
        | Phase::MountBackendAgain(_)
        | Phase::MountMappingsAgain(_)
        | Phase::Mounting(_)
        | Phase::MountDevice(_) => mount(script, c, e),
        Phase::DropBackend(_) | Phase::Dropping(_) => drop_device(script, c, e),
        Phase::RollBackend
        | Phase::RollGone
        | Phase::RollObserve
        | Phase::RollVerify
        | Phase::RollRun(_)
        | Phase::RollRetire => roll(c, e),
        Phase::DetachBackend
        | Phase::DetachGone
        | Phase::DetachObserve
        | Phase::DetachRun(_)
        | Phase::DetachRetire => detach(c, e),
        Phase::GrowBackend(_)
        | Phase::GrowObserve(_)
        | Phase::GrowSize(_)
        | Phase::GrowTarget(_)
        | Phase::GrowBackendAgain(_)
        | Phase::GrowObserveAgain(_)
        | Phase::GrowExtend(_)
        | Phase::GrowRun(_)
        | Phase::GrowClear => grow(script, c, e),
        Phase::UnboundStep(_) | Phase::UnboundUndo(_) => run_unbound(script, c, e),
        Phase::Stopped => halt(c, End::Refused, Some(Fault::Reported)),
    }
}

// ---------- runs ----------

/// The state of a run after its first `n` answers.
pub open spec fn state_after(
    script: Seq<StepClass>,
    kind: Kind,
    events: Seq<Event>,
    n: nat,
) -> Control
    decreases n,
{
    if n == 0 {
        begun(kind)
    } else {
        let m = (n - 1) as nat;
        transition(script, state_after(script, kind, events, m), events[m as int]).control
    }
}

/// What a run orders on its answer number `n`.
pub open spec fn order_at(
    script: Seq<StepClass>,
    kind: Kind,
    events: Seq<Event>,
    n: int,
) -> Order {
    transition(script, state_after(script, kind, events, n as nat), events[n]).order
}

/// Immediately before answer `n` the kernel showed the recorded backend, and
/// then the layer as the highest one that is live.
pub open spec fn just_verified(events: Seq<Event>, n: int, layer: Layer) -> bool {
    &&& n >= 1
    &&& events[n - 1] == Event::Backend(Backend::Ours)
    &&& seen(events[n]) matches Some(o) && top_layer(o) == Some(layer)
}

/// Answer `n` confirmed that the mappings are those of the verified group, and
/// immediately before that the layer was verified.
pub open spec fn confirmed(events: Seq<Event>, n: int, layer: Layer) -> bool {
    events[n] == Event::Done(true) && just_verified(events, n - 1, layer)
}

/// What one answer can bring about, as far as the laws below need it.
pub open spec fn lawful(c: Control, e: Event, x: Next) -> bool {
    &&& x.control.kind == c.kind
    &&& of_kind(c.kind, c.phase) ==> of_kind(c.kind, x.control.phase)
    &&& match x.control.phase {
        Phase::RollObserve | Phase::DetachObserve | Phase::GrowObserve(_) => e == Event::Backend(
            Backend::Ours,
        ),
        Phase::MountBackend(_) => x.order == Order::Probe,
        Phase::MountMappings(i) => c.phase == Phase::MountBackend(i) && e == Event::Backend(
            Backend::Ours,
        ) && x.order == Order::VerifyActivated,
        Phase::MountFilesystem(i) => c.phase == Phase::MountMappings(i) && e == Event::Done(true)
            && x.order == Order::VerifyFilesystem(i),
        Phase::MountBackendAgain(i) => c.phase == Phase::MountFilesystem(i) && e == Event::Done(
            true,
        ) && x.order == Order::Probe,
        Phase::MountMappingsAgain(i) => c.phase == Phase::MountBackendAgain(i) && e
            == Event::Backend(Backend::Ours) && x.order == Order::VerifyActivated,
        Phase::Mounting(i) => c.phase == Phase::MountMappingsAgain(i) && e == Event::Done(true)
            && x.order == Order::Run(i),
        Phase::MountDevice(i) => c.phase == Phase::Mounting(i) && e == Event::Done(true) && x.order
            == Order::VerifyDevice(i),
        Phase::DropBackend(_) => x.order == Order::Probe,
        Phase::Dropping(i) => c.phase == Phase::DropBackend(i) && e == Event::Backend(
            Backend::Ours,
        ) && x.order == Order::Run(i),
        Phase::GrowTarget(_) => x.order == Order::PersistTarget,
        Phase::GrowBackendAgain(i) => c.phase == Phase::GrowTarget(i) && e == Event::Done(true),
        Phase::GrowObserveAgain(i) => c.phase == Phase::GrowBackendAgain(i) && e == Event::Backend(
            Backend::Ours,
        ),
        Phase::RollGone | Phase::DetachGone => e == Event::Backend(Backend::Absent),
        Phase::RollVerify => c.phase == Phase::RollObserve && c.attempted && x.control.attempted
            && (seen(e) matches Some(o) && top_layer(o) == Some(Layer::Group)),
        Phase::Intent(_) => x.order == Order::PersistIntent,
        Phase::DetachRun(layer) => x.order == Order::TakeDown(layer),
        _ => true,
    }
    &&& x.control.device_verified ==> c.device_verified || (c.phase is MountDevice && e
        == Event::Done(true))
    &&& recorded(x.control.phase) ==> recorded(c.phase) || (c.phase == Phase::Writing && e
        == Event::Done(true))
    &&& match x.order {
        Order::TakeDown(layer) => if c.phase == Phase::RollVerify {
            layer == Layer::Group && e == Event::Done(true)
        } else {
            ||| c.phase == Phase::DetachObserve && seen(e) is Some && top_layer(seen(e)->Some_0)
                == Some(layer)
            ||| c.phase == Phase::RollObserve && layer != Layer::Group && seen(e) is Some
                && top_layer(seen(e)->Some_0) == Some(layer)
        },
        Order::Retire => {
            ||| (c.phase == Phase::RollGone || c.phase == Phase::DetachGone) && seen(e) is Some
                && seen(e)->Some_0.is_clear()
            ||| c.phase == Phase::DetachRun(Layer::Device) && e == Event::Done(true)
        },
        Order::Activate => c.phase is Intent && e == Event::Done(true),
        Order::Extend(i) => c.phase == Phase::GrowObserveAgain(i) && seen(e) is Some
            && seen(e)->Some_0.mounted && seen(e)->Some_0.vg_active,
        Order::Run(_) => {
            ||| c.phase is GrowObserve && seen(e) is Some && seen(e)->Some_0.mounted
                && seen(e)->Some_0.vg_active
            ||| recorded(x.control.phase)
            ||| x.control.phase is UnboundStep
        },
        _ => true,
    }
}

proof fn lemma_opening(script: Seq<StepClass>, c: Control, e: Event)
    requires
        c.phase == Phase::Ready,
    ensures
        lawful(c, e, opening(script, c)),
{
    reveal(opening);
}

#[verifier::spinoff_prover]
#[verifier::rlimit(60)]
proof fn lemma_preparing(script: Seq<StepClass>, c: Control, e: Event)
    ensures
        lawful(c, e, preparing(script, c, e)),
{
    reveal(preparing);
}

#[verifier::spinoff_prover]
#[verifier::rlimit(60)]
proof fn lemma_connecting(script: Seq<StepClass>, c: Control, e: Event)
    requires
        c.phase is Connect || c.phase is Waiting || c.phase is Verify || c.phase is Step,
    ensures
        lawful(c, e, attaching(script, c, e)),
{
    reveal(attaching);
}

#[verifier::spinoff_prover]
#[verifier::rlimit(60)]
proof fn lemma_activating(script: Seq<StepClass>, c: Control, e: Event)
    requires
        c.phase is Preflight || c.phase is Intent || c.phase is Activate || c.phase is Activated,
    ensures
        lawful(c, e, attaching(script, c, e)),
{
    reveal(attaching);
}

#[verifier::spinoff_prover]
#[verifier::rlimit(60)]
proof fn lemma_proving(script: Seq<StepClass>, c: Control, e: Event)
    requires
        c.phase is ProofProbe || c.phase is Capture || c.phase is Publish || c.phase is Published,
    ensures
        lawful(c, e, attaching(script, c, e)),
{
    reveal(attaching);
}

proof fn lemma_attaching(script: Seq<StepClass>, c: Control, e: Event)
    ensures
        lawful(c, e, attaching(script, c, e)),
{
    if c.phase is Connect || c.phase is Waiting || c.phase is Verify || c.phase is Step {
        lemma_connecting(script, c, e);
    } else if c.phase is Preflight || c.phase is Intent || c.phase is Activate || c.phase is Activated {
        lemma_activating(script, c, e);
    } else if c.phase is ProofProbe || c.phase is Capture || c.phase is Publish || c.phase is Published {
        lemma_proving(script, c, e);
    } else {
        reveal(attaching);
    }
}

#[verifier::spinoff_prover]
#[verifier::rlimit(60)]
proof fn lemma_mounting(script: Seq<StepClass>, c: Control, e: Event)
    ensures
        lawful(c, e, mounting(script, c, e)),
{
    reveal(mounting);
}

#[verifier::spinoff_prover]
#[verifier::rlimit(60)]
proof fn lemma_dropping(script: Seq<StepClass>, c: Control, e: Event)
    ensures
        lawful(c, e, dropping(script, c, e)),
{
    reveal(dropping);
}

#[verifier::spinoff_prover]
#[verifier::rlimit(60)]
proof fn lemma_rolling(c: Control, e: Event)
    ensures
        lawful(c, e, rolling(c, e)),
{
    reveal(rolling);
}

#[verifier::spinoff_prover]
#[verifier::rlimit(60)]
proof fn lemma_detaching(c: Control, e: Event)
    ensures
        lawful(c, e, detaching(c, e)),
{
    reveal(detaching);
}

#[verifier::spinoff_prover]
proof fn lemma_growing(script: Seq<StepClass>, c: Control, e: Event)
    ensures
        lawful(c, e, growing(script, c, e)),
{
    reveal(growing);
}

#[verifier::spinoff_prover]
proof fn lemma_unbound(script: Seq<StepClass>, c: Control, e: Event)
    ensures
        lawful(c, e, unbound(script, c, e)),
{
    reveal(unbound);
}

proof fn lemma_lawful(script: Seq<StepClass>, c: Control, e: Event)
    ensures
        lawful(c, e, transition(script, c, e)),
{
    if c.phase == Phase::Ready {
        lemma_opening(script, c, e);
    }
    lemma_preparing(script, c, e);
    lemma_attaching(script, c, e);
    lemma_mounting(script, c, e);
    lemma_dropping(script, c, e);
    lemma_rolling(c, e);
    lemma_detaching(c, e);
    lemma_growing(script, c, e);
    lemma_unbound(script, c, e);
}

/// The law of one answer of a run.
proof fn lemma_at(script: Seq<StepClass>, kind: Kind, events: Seq<Event>, n: int)
    requires
        0 <= n < events.len(),
    ensures
        lawful(
            state_after(script, kind, events, n as nat),
            events[n],
            transition(script, state_after(script, kind, events, n as nat), events[n]),
        ),
        state_after(script, kind, events, (n + 1) as nat) == transition(
            script,
            state_after(script, kind, events, n as nat),
            events[n],
        ).control,
{
    lemma_lawful(script, state_after(script, kind, events, n as nat), events[n]);
}

/// Nothing is torn down unseen: a layer is taken down only when, immediately
/// before, the kernel showed the recorded backend and then that layer as the
/// highest live one. In a rollback the group is taken down only after, on top
/// of that, its mappings were confirmed to be the verified ones.
pub proof fn nothing_is_torn_down_unseen(
    script: Seq<StepClass>,
    kind: Kind,
    events: Seq<Event>,
    n: int,
    layer: Layer,
)
    requires
        0 <= n < events.len(),
        order_at(script, kind, events, n) == Order::TakeDown(layer),
    ensures
        just_verified(events, n, layer) || (layer == Layer::Group && confirmed(events, n, layer)),
        kind is Attach && layer == Layer::Group ==> confirmed(events, n, layer) && state_after(
            script,
            kind,
            events,
            n as nat,
        ).attempted,
{
    lemma_kind_kept(script, kind, events, n as nat);
    lemma_at(script, kind, events, n);
    if n >= 1 {
        lemma_at(script, kind, events, n - 1);
    }
    if n >= 2 {
        lemma_at(script, kind, events, n - 2);
    }
}

/// The kind of a phase is that of its run.
pub open spec fn of_kind(kind: Kind, phase: Phase) -> bool {
    match phase {
        Phase::Ready | Phase::Stopped => true,
        Phase::DetachBackend
        | Phase::DetachGone
        | Phase::DetachObserve
        | Phase::DetachRun(_)
        | Phase::DetachRetire => kind is Detach,
        Phase::GrowBackend(_)
        | Phase::GrowObserve(_)
        | Phase::GrowSize(_)
        | Phase::GrowTarget(_)
        | Phase::GrowBackendAgain(_)
        | Phase::GrowObserveAgain(_)
        | Phase::GrowExtend(_)
        | Phase::GrowRun(_)
        | Phase::GrowClear => kind is Grow,
        Phase::UnboundStep(_) | Phase::UnboundUndo(_) => kind is Unbound,
        _ => kind is Attach,
    }
}

proof fn lemma_kind_kept(script: Seq<StepClass>, kind: Kind, events: Seq<Event>, n: nat)
    requires
        n <= events.len(),
    ensures
        state_after(script, kind, events, n).kind == kind,
        of_kind(kind, state_after(script, kind, events, n).phase),
    decreases n,
{
    if n > 0 {
        lemma_kind_kept(script, kind, events, (n - 1) as nat);
        lemma_at(script, kind, events, n - 1);
    }
}

/// The prepared record was written among the first `n` answers.
pub open spec fn written(
    script: Seq<StepClass>,
    kind: Kind,
    events: Seq<Event>,
    n: nat,
) -> bool
    decreases n,
{
    n > 0 && (written(script, kind, events, (n - 1) as nat) || (state_after(
        script,
        kind,
        events,
        (n - 1) as nat,
    ).phase == Phase::Writing && events[n - 1] == Event::Done(true)))
}

/// The phases of an attach once its record is written.
pub open spec fn recorded(phase: Phase) -> bool {
    match phase {
        Phase::Connect(_)
        | Phase::Waiting(_)
        | Phase::Verify(_)
        | Phase::Preflight(_)
        | Phase::Intent(_)
        | Phase::Activate(_)
        | Phase::Activated(_)
        | Phase::ProofProbe(_)
        | Phase::Capture(_)
        | Phase::Publish(_)
        | Phase::Published(_)
        | Phase::MountBackend(_)
        | Phase::MountMappings(_)
        | Phase::MountFilesystem(_)
        | Phase::MountBackendAgain(_)
        | Phase::MountMappingsAgain(_)
        | Phase::Mounting(_)
        | Phase::MountDevice(_)
        | Phase::DropBackend(_)
        | Phase::Dropping(_)
        | Phase::Step(_)
        | Phase::RollBackend
        | Phase::RollGone
        | Phase::RollObserve
        | Phase::RollVerify
        | Phase::RollRun(_)
        | Phase::RollRetire => true,
        _ => false,
    }
}

proof fn lemma_recorded(script: Seq<StepClass>, kind: Kind, events: Seq<Event>, n: nat)
    requires
        n <= events.len(),
        recorded(state_after(script, kind, events, n).phase),
    ensures
        written(script, kind, events, n),
    decreases n,
{
    if n > 0 {
        let m = (n - 1) as nat;
        lemma_at(script, kind, events, m as int);
        if recorded(state_after(script, kind, events, m).phase) {
            lemma_recorded(script, kind, events, m);
        }
    }
}

/// The record of an attachment is written before any step of its plan runs:
/// a death of the process never leaves a connection without a record.
pub proof fn the_record_precedes_every_step(
    script: Seq<StepClass>,
    kind: Kind,
    events: Seq<Event>,
    n: int,
    i: usize,
)
    requires
        0 <= n < events.len(),
        kind is Attach,
        order_at(script, kind, events, n) == Order::Run(i) || order_at(script, kind, events, n)
            == Order::Activate,
    ensures
        written(script, kind, events, (n + 1) as nat),
{
    lemma_kind_kept(script, kind, events, n as nat);
    lemma_kind_kept(script, kind, events, (n + 1) as nat);
    lemma_at(script, kind, events, n);
    if recorded(state_after(script, kind, events, n as nat).phase) {
        lemma_recorded(script, kind, events, n as nat);
    }
    if recorded(state_after(script, kind, events, (n + 1) as nat).phase) {
        lemma_recorded(script, kind, events, (n + 1) as nat);
    }
}

/// Nothing is activated unless the verified metadata was written into the
/// record by the answer just before.
pub proof fn activation_follows_the_persisted_intent(
    script: Seq<StepClass>,
    kind: Kind,
    events: Seq<Event>,
    n: int,
)
    requires
        0 <= n < events.len(),
        order_at(script, kind, events, n) == Order::Activate,
    ensures
        n >= 1,
        order_at(script, kind, events, n - 1) == Order::PersistIntent,
        events[n] == Event::Done(true),
{
    lemma_at(script, kind, events, n);
    if n >= 1 {
        lemma_at(script, kind, events, n - 1);
    }
}

/// A step back that fails ends the rollback: nothing below it is touched.
pub proof fn a_failed_step_back_stops_the_rollback(
    script: Seq<StepClass>,
    c: Control,
    e: Event,
    layer: Layer,
)
    requires
        c.phase == Phase::RollRun(layer),
        e != Event::Done(true),
    ensures
        transition(script, c, e).order == Order::Stop(
            End::RolledBack { rolled_back: layers_down(c), failed: 1 },
        ),
{
    reveal(rolling);
}

/// A backend that is foreign or cannot be read ends a rollback at once.
pub proof fn a_foreign_backend_stops_the_rollback(script: Seq<StepClass>, c: Control, e: Event)
    requires
        c.phase == Phase::RollBackend,
        backend_of(e) == Backend::Foreign || backend_of(e) == Backend::Unreadable,
    ensures
        transition(script, c, e).order == Order::Stop(
            End::RolledBack { rolled_back: layers_down(c), failed: 1 },
        ),
{
    reveal(rolling);
}

/// The record is retired only when nothing of the attachment is left: the
/// backend was absent and nothing was seen live, or a detach has just taken
/// down the device itself.
pub proof fn records_are_retired_only_when_nothing_is_left(
    script: Seq<StepClass>,
    kind: Kind,
    events: Seq<Event>,
    n: int,
)
    requires
        0 <= n < events.len(),
        order_at(script, kind, events, n) == Order::Retire,
    ensures
        n >= 1,
        (events[n - 1] == Event::Backend(Backend::Absent) && (seen(events[n]) matches Some(o)
            && o.is_clear())) || (order_at(script, kind, events, n - 1) == Order::TakeDown(
            Layer::Device,
        ) && events[n] == Event::Done(true)),
{
    lemma_at(script, kind, events, n);
    if n >= 1 {
        lemma_at(script, kind, events, n - 1);
    }
}

/// A growth runs a step, and extends a volume, only on an attachment that was
/// just seen connected, mounted and active.
pub proof fn growth_touches_only_live_attachments(
    script: Seq<StepClass>,
    events: Seq<Event>,
    n: int,
    i: usize,
)
    requires
        0 <= n < events.len(),
        order_at(script, Kind::Grow, events, n) == Order::Run(i) || order_at(
            script,
            Kind::Grow,
            events,
            n,
        ) == Order::Extend(i),
    ensures
        n >= 1,
        events[n - 1] == Event::Backend(Backend::Ours),
        seen(events[n]) matches Some(o) && o.mounted && o.vg_active,
{
    lemma_kind_kept(script, Kind::Grow, events, n as nat);
    lemma_kind_kept(script, Kind::Grow, events, (n + 1) as nat);
    lemma_at(script, Kind::Grow, events, n);
    if n >= 1 {
        lemma_at(script, Kind::Grow, events, n - 1);
    }
}

/// A volume is extended only after the size that it is to have was written into
/// the record.
pub proof fn extensions_follow_the_persisted_target(
    script: Seq<StepClass>,
    kind: Kind,
    events: Seq<Event>,
    n: int,
    i: usize,
)
    requires
        0 <= n < events.len(),
        order_at(script, kind, events, n) == Order::Extend(i),
    ensures
        n >= 3,
        order_at(script, kind, events, n - 3) == Order::PersistTarget,
        events[n - 2] == Event::Done(true),
{
    lemma_at(script, kind, events, n);
    if n >= 1 {
        lemma_at(script, kind, events, n - 1);
    }
    if n >= 2 {
        lemma_at(script, kind, events, n - 2);
    }
    if n >= 3 {
        lemma_at(script, kind, events, n - 3);
    }
}

/// How many steps of the plan were ordered when an attach stands there.
pub open spec fn steps_ordered(phase: Phase) -> int {
    match phase {
        Phase::Preflight(i)
        | Phase::Intent(i)
        | Phase::MountBackend(i)
        | Phase::MountMappings(i)
        | Phase::MountFilesystem(i)
        | Phase::MountBackendAgain(i)
        | Phase::MountMappingsAgain(i)
        | Phase::DropBackend(i) => i as int,
        Phase::Connect(i)
        | Phase::Waiting(i)
        | Phase::Verify(i)
        | Phase::Activate(i)
        | Phase::Activated(i)
        | Phase::ProofProbe(i)
        | Phase::Capture(i)
        | Phase::Publish(i)
        | Phase::Published(i)
        | Phase::Mounting(i)
        | Phase::MountDevice(i)
        | Phase::Dropping(i)
        | Phase::Step(i) => i + 1,
        _ => 0,
    }
}

/// The order carries out step `i`.
pub open spec fn carries_out(script: Seq<StepClass>, order: Order, i: int) -> bool {
    if script[i] == StepClass::Activate {
        order == Order::Activate
    } else {
        order == Order::Run(i as usize)
    }
}

/// The phases that work on a step of an attach.
pub open spec fn working(phase: Phase) -> bool {
    match phase {
        Phase::Connect(_)
        | Phase::Waiting(_)
        | Phase::Verify(_)
        | Phase::Preflight(_)
        | Phase::Intent(_)
        | Phase::Activate(_)
        | Phase::Activated(_)
        | Phase::ProofProbe(_)
        | Phase::Capture(_)
        | Phase::Publish(_)
        | Phase::Published(_)
        | Phase::MountBackend(_)
        | Phase::MountMappings(_)
        | Phase::MountFilesystem(_)
        | Phase::MountBackendAgain(_)
        | Phase::MountMappingsAgain(_)
        | Phase::Mounting(_)
        | Phase::MountDevice(_)
        | Phase::DropBackend(_)
        | Phase::Dropping(_)
        | Phase::Step(_) => true,
        _ => false,
    }
}

/// The phase works on a step of its own class.
pub open spec fn in_class(script: Seq<StepClass>, phase: Phase) -> bool {
    match phase {
        Phase::Connect(i) | Phase::Waiting(i) | Phase::Verify(i) => i < script.len() && script[i as int]
            == StepClass::Connect,
        Phase::Preflight(i)
        | Phase::Intent(i)
        | Phase::Activate(i)
        | Phase::Activated(i)
        | Phase::ProofProbe(i)
        | Phase::Capture(i)
        | Phase::Publish(i)
        | Phase::Published(i) => i < script.len() && script[i as int] == StepClass::Activate,
        Phase::MountBackend(i)
        | Phase::MountMappings(i)
        | Phase::MountFilesystem(i)
        | Phase::MountBackendAgain(i)
        | Phase::MountMappingsAgain(i)
        | Phase::Mounting(i)
        | Phase::MountDevice(i) => i < script.len() && script[i as int] == StepClass::Mount,
        Phase::DropBackend(i) | Phase::Dropping(i) => i < script.len() && script[i as int]
            == StepClass::Disconnect,
        Phase::Step(i) => i < script.len() && script[i as int] != StepClass::Activate
            && script[i as int] != StepClass::Mount && script[i as int] != StepClass::Disconnect,
        _ => true,
    }
}

/// One answer orders at most one more step, the next one; an attach is finished
/// only when all of them were ordered.
spec fn in_order(script: Seq<StepClass>, c: Control, x: Next) -> bool {
    &&& working(x.control.phase) ==> {
        &&& working(c.phase) || c.phase == Phase::Writing
        &&& in_class(script, x.control.phase)
        &&& steps_ordered(x.control.phase) == steps_ordered(c.phase) || (steps_ordered(
            x.control.phase,
        ) == steps_ordered(c.phase) + 1 && carries_out(script, x.order, steps_ordered(c.phase)))
    }
    &&& x.order == Order::Stop(End::Finished) && c.kind is Attach ==> (working(c.phase) || c.phase
        == Phase::Writing) && steps_ordered(c.phase) == script.len()
    &&& x.order matches Order::Run(i) ==> {
        ||| x.control.phase == Phase::Connect(i)
        ||| x.control.phase == Phase::Mounting(i)
        ||| x.control.phase == Phase::Dropping(i)
        ||| x.control.phase == Phase::Step(i) && (script[i as int] == StepClass::Sentinel
            ==> x.control.device_verified)
        ||| x.control.phase == Phase::GrowRun(i) && script[i as int] != StepClass::Extend
        ||| x.control.phase == Phase::UnboundStep(i)
    }
    &&& x.control.phase is UnboundStep ==> c.phase is UnboundStep || !activates(script)
}

#[verifier::spinoff_prover]
#[verifier::rlimit(100)]
proof fn lemma_attaching_in_order(script: Seq<StepClass>, c: Control, e: Event)
    requires
        working(c.phase),
        in_class(script, c.phase),
        script.len() <= usize::MAX,
    ensures
        in_order(script, c, attaching(script, c, e)),
{
    reveal(attaching);
}

#[verifier::spinoff_prover]
#[verifier::rlimit(100)]
proof fn lemma_mounting_in_order(script: Seq<StepClass>, c: Control, e: Event)
    requires
        working(c.phase),
        in_class(script, c.phase),
        script.len() <= usize::MAX,
    ensures
        in_order(script, c, mounting(script, c, e)),
{
    reveal(mounting);
}

#[verifier::spinoff_prover]
#[verifier::rlimit(100)]
proof fn lemma_dropping_in_order(script: Seq<StepClass>, c: Control, e: Event)
    requires
        working(c.phase),
        in_class(script, c.phase),
        script.len() <= usize::MAX,
    ensures
        in_order(script, c, dropping(script, c, e)),
{
    reveal(dropping);
}

#[verifier::spinoff_prover]
#[verifier::rlimit(100)]
proof fn lemma_preparing_in_order(script: Seq<StepClass>, c: Control, e: Event)
    ensures
        in_order(script, c, preparing(script, c, e)),
{
    reveal(preparing);
}

#[verifier::spinoff_prover]
#[verifier::rlimit(100)]
proof fn lemma_rest_in_order(script: Seq<StepClass>, c: Control, e: Event)
    requires
        of_kind(c.kind, c.phase),
    ensures
        c.phase == Phase::Ready ==> in_order(script, c, opening(script, c)),
        recorded(c.phase) ==> in_order(script, c, rolling(c, e)),
        !(c.kind is Attach) ==> in_order(script, c, detaching(c, e)),
        !(c.kind is Attach) ==> in_order(script, c, growing(script, c, e)),
        !(c.kind is Attach) ==> in_order(script, c, unbound(script, c, e)),
{
    reveal(opening);
    reveal(rolling);
    reveal(detaching);
    reveal(growing);
    reveal(unbound);
}

/// Step `i` was carried out among the first `n` answers.
pub open spec fn carried_out(
    script: Seq<StepClass>,
    kind: Kind,
    events: Seq<Event>,
    n: nat,
    i: int,
) -> bool
    decreases n,
{
    n > 0 && (carried_out(script, kind, events, (n - 1) as nat, i) || carries_out(
        script,
        order_at(script, kind, events, n - 1),
        i,
    ))
}

proof fn lemma_in_order(script: Seq<StepClass>, kind: Kind, events: Seq<Event>, n: int)
    requires
        0 <= n < events.len(),
        script.len() <= usize::MAX,
        in_class(script, state_after(script, kind, events, n as nat).phase),
    ensures
        in_order(
            script,
            state_after(script, kind, events, n as nat),
            transition(script, state_after(script, kind, events, n as nat), events[n]),
        ),
{
    let c = state_after(script, kind, events, n as nat);
    lemma_kind_kept(script, kind, events, n as nat);
    lemma_preparing_in_order(script, c, events[n]);
    lemma_rest_in_order(script, c, events[n]);
    if working(c.phase) {
        lemma_attaching_in_order(script, c, events[n]);
        lemma_mounting_in_order(script, c, events[n]);
        lemma_dropping_in_order(script, c, events[n]);
    }
}

proof fn lemma_carried_out(
    script: Seq<StepClass>,
    kind: Kind,
    events: Seq<Event>,
    n: nat,
    i: int,
)
    requires
        n <= events.len(),
        script.len() <= usize::MAX,
    ensures
        in_class(script, state_after(script, kind, events, n).phase),
        working(state_after(script, kind, events, n).phase) && 0 <= i < steps_ordered(
            state_after(script, kind, events, n).phase,
        ) ==> carried_out(script, kind, events, n, i),
    decreases n,
{
    if n > 0 {
        let m = (n - 1) as nat;
        lemma_carried_out(script, kind, events, m, i);
        lemma_in_order(script, kind, events, m as int);
        let c = state_after(script, kind, events, m);
        let x = transition(script, c, events[m as int]);
        assert(state_after(script, kind, events, n) == x.control);
        assert(order_at(script, kind, events, m as int) == x.order);
        if !working(x.control.phase) {
            assert(in_class(script, x.control.phase));
        }
    }
}

/// An attach is finished only when every step of its plan was carried out.
pub proof fn finished_attaches_carried_out_every_step(
    script: Seq<StepClass>,
    kind: Kind,
    events: Seq<Event>,
    n: int,
    i: int,
)
    requires
        0 <= n < events.len(),
        kind is Attach,
        order_at(script, kind, events, n) == Order::Stop(End::Finished),
        script.len() <= usize::MAX,
        0 <= i < script.len(),
    ensures
        carried_out(script, kind, events, n as nat, i),
{
    lemma_carried_out(script, kind, events, n as nat, i);
    lemma_kind_kept(script, kind, events, n as nat);
    lemma_in_order(script, kind, events, n);
}

proof fn lemma_unbound_scripts(script: Seq<StepClass>, kind: Kind, events: Seq<Event>, n: nat)
    requires
        n <= events.len(),
        script.len() <= usize::MAX,
        state_after(script, kind, events, n).phase is UnboundStep,
    ensures
        !activates(script),
    decreases n,
{
    if n > 0 {
        let m = (n - 1) as nat;
        lemma_carried_out(script, kind, events, m, 0);
        lemma_in_order(script, kind, events, m as int);
        if state_after(script, kind, events, m).phase is UnboundStep {
            lemma_unbound_scripts(script, kind, events, m);
        }
    }
}

/// No group is ever activated by its name: neither an attach nor a plan that
/// belongs to no attachment runs an activating step as a command.
pub proof fn activations_are_never_run_as_commands(
    script: Seq<StepClass>,
    kind: Kind,
    events: Seq<Event>,
    n: int,
    i: usize,
)
    requires
        0 <= n < events.len(),
        kind is Attach || kind is Unbound,
        order_at(script, kind, events, n) == Order::Run(i),
        script.len() <= usize::MAX,
    ensures
        i < script.len() ==> script[i as int] != StepClass::Activate,
{
    lemma_carried_out(script, kind, events, n as nat, 0);
    lemma_in_order(script, kind, events, n);
    lemma_carried_out(script, kind, events, (n + 1) as nat, 0);
    lemma_kind_kept(script, kind, events, (n + 1) as nat);
    if state_after(script, kind, events, (n + 1) as nat).phase is UnboundStep {
        lemma_unbound_scripts(script, kind, events, (n + 1) as nat);
    }
}

/// No growth extends a volume by an amount: an extending step is never run as
/// the command that the plan shows, only through a size that was set before.
pub proof fn growths_never_extend_by_an_amount(
    script: Seq<StepClass>,
    events: Seq<Event>,
    n: int,
    i: usize,
)
    requires
        0 <= n < events.len(),
        script.len() <= usize::MAX,
        order_at(script, Kind::Grow, events, n) == Order::Run(i),
    ensures
        script[i as int] != StepClass::Extend,
{
    lemma_carried_out(script, Kind::Grow, events, n as nat, 0);
    lemma_in_order(script, Kind::Grow, events, n);
    lemma_kind_kept(script, Kind::Grow, events, (n + 1) as nat);
    lemma_at(script, Kind::Grow, events, n);
}

/// No device is disconnected unseen by a step of an attach either: such a step
/// runs only when, immediately before, the kernel showed the recorded backend.
pub proof fn no_step_disconnects_unseen(
    script: Seq<StepClass>,
    kind: Kind,
    events: Seq<Event>,
    n: int,
    i: usize,
)
    requires
        0 <= n < events.len(),
        kind is Attach,
        script.len() <= usize::MAX,
        i < script.len(),
        script[i as int] == StepClass::Disconnect,
        order_at(script, kind, events, n) == Order::Run(i),
    ensures
        n >= 1,
        order_at(script, kind, events, n - 1) == Order::Probe,
        events[n] == Event::Backend(Backend::Ours),
{
    lemma_carried_out(script, kind, events, n as nat, 0);
    lemma_in_order(script, kind, events, n);
    lemma_carried_out(script, kind, events, (n + 1) as nat, 0);
    lemma_kind_kept(script, kind, events, (n + 1) as nat);
    lemma_at(script, kind, events, n);
    if n >= 1 {
        lemma_at(script, kind, events, n - 1);
    }
}

/// A filesystem is mounted only when its backend, the mappings below it and its
/// own identity were just verified, and then backend and mappings once more:
/// the five answers before the mount say so.
pub proof fn mounts_follow_a_verified_filesystem(
    script: Seq<StepClass>,
    kind: Kind,
    events: Seq<Event>,
    n: int,
    i: usize,
)
    requires
        0 <= n < events.len(),
        kind is Attach,
        script.len() <= usize::MAX,
        i < script.len(),
        script[i as int] == StepClass::Mount,
        order_at(script, kind, events, n) == Order::Run(i),
    ensures
        n >= 5,
        order_at(script, kind, events, n - 5) == Order::Probe,
        events[n - 4] == Event::Backend(Backend::Ours),
        order_at(script, kind, events, n - 4) == Order::VerifyActivated,
        events[n - 3] == Event::Done(true),
        order_at(script, kind, events, n - 3) == Order::VerifyFilesystem(i),
        events[n - 2] == Event::Done(true),
        order_at(script, kind, events, n - 2) == Order::Probe,
        events[n - 1] == Event::Backend(Backend::Ours),
        order_at(script, kind, events, n - 1) == Order::VerifyActivated,
        events[n] == Event::Done(true),
{
    lemma_carried_out(script, kind, events, n as nat, 0);
    lemma_in_order(script, kind, events, n);
    lemma_carried_out(script, kind, events, (n + 1) as nat, 0);
    lemma_kind_kept(script, kind, events, (n + 1) as nat);
    lemma_at(script, kind, events, n);
    if n >= 1 {
        lemma_at(script, kind, events, n - 1);
    }
    if n >= 2 {
        lemma_at(script, kind, events, n - 2);
    }
    if n >= 3 {
        lemma_at(script, kind, events, n - 3);
    }
    if n >= 4 {
        lemma_at(script, kind, events, n - 4);
    }
    if n >= 5 {
        lemma_at(script, kind, events, n - 5);
    }
}

/// Among the first `n` answers one said that the device below a mount is the
/// recorded one.
pub open spec fn device_confirmed(
    script: Seq<StepClass>,
    kind: Kind,
    events: Seq<Event>,
    n: nat,
) -> bool
    decreases n,
{
    n >= 2 && (device_confirmed(script, kind, events, (n - 1) as nat) || (order_at(
        script,
        kind,
        events,
        n - 2,
    ) is VerifyDevice && events[n - 1] == Event::Done(true)))
}

proof fn lemma_device_confirmed(script: Seq<StepClass>, kind: Kind, events: Seq<Event>, n: nat)
    requires
        n <= events.len(),
        state_after(script, kind, events, n).device_verified,
    ensures
        device_confirmed(script, kind, events, n),
    decreases n,
{
    if n > 0 {
        let m = (n - 1) as nat;
        lemma_at(script, kind, events, m as int);
        if state_after(script, kind, events, m).device_verified {
            lemma_device_confirmed(script, kind, events, m);
        } else {
            assert(state_after(script, kind, events, m).phase is MountDevice);
            assert(m >= 1);
            lemma_at(script, kind, events, m - 1);
        }
    }
}

/// An attach writes no sentinel before the device below its mount was verified.
pub proof fn sentinels_follow_a_verified_device(
    script: Seq<StepClass>,
    kind: Kind,
    events: Seq<Event>,
    n: int,
    i: usize,
)
    requires
        0 <= n < events.len(),
        kind is Attach,
        script.len() <= usize::MAX,
        i < script.len(),
        script[i as int] == StepClass::Sentinel,
        order_at(script, kind, events, n) == Order::Run(i),
    ensures
        device_confirmed(script, kind, events, (n + 1) as nat),
{
    lemma_carried_out(script, kind, events, n as nat, 0);
    lemma_in_order(script, kind, events, n);
    lemma_carried_out(script, kind, events, (n + 1) as nat, 0);
    lemma_kind_kept(script, kind, events, (n + 1) as nat);
    lemma_at(script, kind, events, n);
    lemma_device_confirmed(script, kind, events, (n + 1) as nat);
}

// ---------- the end of a run ----------

/// A layer is taken down at most once.
pub open spec fn sound(script: Seq<StepClass>, c: Control) -> bool {
    fits(script, c) && match c.phase {
        Phase::RollRun(layer) | Phase::DetachRun(layer) => !is_down(c, layer),
        Phase::RollVerify => !c.group_down,
        _ => true,
    }
}

/// How many answers a rollback or a detach may still take.
pub open spec fn teardown_left(c: Control) -> int {
    5 * (3 - layers_down(c) as int)
}

/// How many answers a run may still take.
pub open spec fn answers_left(script: Seq<StepClass>, c: Control) -> int {
    let len = script.len() as int;
    match c.phase {
        Phase::Ready => 12 * len + 50,
        Phase::PriorBackend => 12 * len + 49,
        Phase::PriorObserve => 12 * len + 48,
        Phase::Modprobe => 12 * len + 47,
        Phase::Allocate => 12 * len + 46,
        Phase::TargetBackend => 12 * len + 45,
        Phase::Prepare => 12 * len + 44,
        Phase::TargetObserve => 12 * len + 43,
        Phase::Writing => 12 * len + 42,
        Phase::Preflight(i) => 12 * (len - i) + 30,
        Phase::Intent(i) => 12 * (len - i) + 29,
        Phase::Activate(i) => 12 * (len - i) + 28,
        Phase::Activated(i) => 12 * (len - i) + 27,
        Phase::ProofProbe(i) => 12 * (len - i) + 26,
        Phase::Capture(i) => 12 * (len - i) + 25,
        Phase::Publish(i) => 12 * (len - i) + 24,
        Phase::Published(i) => 12 * (len - i) + 23,
        Phase::Connect(i) => 12 * (len - i) + 30,
        Phase::Waiting(i) => 12 * (len - i) + 29,
        Phase::Verify(i) => 12 * (len - i) + 28,
        Phase::MountBackend(i) => 12 * (len - i) + 30,
        Phase::MountMappings(i) => 12 * (len - i) + 29,
        Phase::MountFilesystem(i) => 12 * (len - i) + 28,
        Phase::MountBackendAgain(i) => 12 * (len - i) + 27,
        Phase::MountMappingsAgain(i) => 12 * (len - i) + 26,
        Phase::Mounting(i) => 12 * (len - i) + 25,
        Phase::MountDevice(i) => 12 * (len - i) + 24,
        Phase::DropBackend(i) => 12 * (len - i) + 30,
        Phase::Dropping(i) => 12 * (len - i) + 29,
        Phase::Step(i) => 12 * (len - i) + 30,
        Phase::RollBackend | Phase::DetachBackend => teardown_left(c) + 6,
        Phase::RollObserve | Phase::DetachObserve => teardown_left(c) + 5,
        Phase::RollVerify => teardown_left(c) + 4,
        Phase::RollRun(_) | Phase::DetachRun(_) => teardown_left(c) + 3,
        Phase::RollGone | Phase::DetachGone => 2,
        Phase::RollRetire | Phase::DetachRetire => 1,
        Phase::GrowBackend(i) => 8 * (len - i) + 8,
        Phase::GrowObserve(i) => 8 * (len - i) + 7,
        Phase::GrowSize(i) => 8 * (len - i) + 6,
        Phase::GrowTarget(i) => 8 * (len - i) + 5,
        Phase::GrowBackendAgain(i) => 8 * (len - i) + 4,
        Phase::GrowObserveAgain(i) => 8 * (len - i) + 3,
        Phase::GrowExtend(i) | Phase::GrowRun(i) => 8 * (len - i) + 2,
        Phase::GrowClear => 1,
        Phase::UnboundStep(i) => 2 * len - i + 1,
        Phase::UnboundUndo(j) => j + 1,
        Phase::Stopped => 0,
    }
}

/// The run goes on soundly and nearer to its end.
spec fn nearer(script: Seq<StepClass>, c: Control, x: Next) -> bool {
    sound(script, x.control) && 0 <= answers_left(script, x.control) < answers_left(script, c)
}

proof fn lemma_opening_ends(script: Seq<StepClass>, c: Control)
    requires
        sound(script, c),
        c.phase == Phase::Ready,
    ensures
        nearer(script, c, opening(script, c)),
{
    reveal(opening);
}

#[verifier::spinoff_prover]
#[verifier::rlimit(60)]
proof fn lemma_preparing_ends(script: Seq<StepClass>, c: Control, e: Event)
    requires
        sound(script, c),
        c.phase != Phase::Stopped,
    ensures
        nearer(script, c, preparing(script, c, e)),
{
    reveal(preparing);
}

#[verifier::spinoff_prover]
#[verifier::rlimit(100)]
proof fn lemma_connecting_ends(script: Seq<StepClass>, c: Control, e: Event)
    requires
        sound(script, c),
        c.phase is Connect || c.phase is Waiting || c.phase is Verify || c.phase is Step,
        script.len() <= usize::MAX,
    ensures
        nearer(script, c, attaching(script, c, e)),
{
    reveal(attaching);
}

#[verifier::spinoff_prover]
#[verifier::rlimit(100)]
proof fn lemma_activating_ends(script: Seq<StepClass>, c: Control, e: Event)
    requires
        sound(script, c),
        c.phase is Preflight || c.phase is Intent || c.phase is Activate || c.phase is Activated,
        script.len() <= usize::MAX,
    ensures
        nearer(script, c, attaching(script, c, e)),
{
    reveal(attaching);
}

#[verifier::spinoff_prover]
#[verifier::rlimit(100)]
proof fn lemma_proving_ends(script: Seq<StepClass>, c: Control, e: Event)
    requires
        sound(script, c),
        c.phase is ProofProbe || c.phase is Capture || c.phase is Publish || c.phase is Published,
        script.len() <= usize::MAX,
    ensures
        nearer(script, c, attaching(script, c, e)),
{
    reveal(attaching);
}

#[verifier::spinoff_prover]
#[verifier::rlimit(100)]
proof fn lemma_mounting_ends(script: Seq<StepClass>, c: Control, e: Event)
    requires
        sound(script, c),
        c.phase is MountBackend || c.phase is MountMappings || c.phase is MountFilesystem
            || c.phase is MountBackendAgain || c.phase is MountMappingsAgain || c.phase is Mounting
            || c.phase is MountDevice,
        script.len() <= usize::MAX,
    ensures
        nearer(script, c, mounting(script, c, e)),
{
    reveal(mounting);
}

#[verifier::spinoff_prover]
#[verifier::rlimit(100)]
proof fn lemma_dropping_ends(script: Seq<StepClass>, c: Control, e: Event)
    requires
        sound(script, c),
        c.phase is DropBackend || c.phase is Dropping,
        script.len() <= usize::MAX,
    ensures
        nearer(script, c, dropping(script, c, e)),
{
    reveal(dropping);
}

proof fn lemma_attaching_ends(script: Seq<StepClass>, c: Control, e: Event)
    requires
        sound(script, c),
        script.len() <= usize::MAX,
        recorded(c.phase),
        !(c.phase is RollBackend || c.phase is RollGone || c.phase is RollObserve || c.phase is RollVerify
            || c.phase is RollRun || c.phase is RollRetire),
    ensures
        nearer(script, c, transition(script, c, e)),
{
    if c.phase is Connect || c.phase is Waiting || c.phase is Verify || c.phase is Step {
        lemma_connecting_ends(script, c, e);
    } else if c.phase is Preflight || c.phase is Intent || c.phase is Activate || c.phase is Activated {
        lemma_activating_ends(script, c, e);
    } else if c.phase is ProofProbe || c.phase is Capture || c.phase is Publish
        || c.phase is Published {
        lemma_proving_ends(script, c, e);
    } else if c.phase is DropBackend || c.phase is Dropping {
        lemma_dropping_ends(script, c, e);
    } else {
        lemma_mounting_ends(script, c, e);
    }
}

#[verifier::spinoff_prover]
#[verifier::rlimit(60)]
proof fn lemma_rolling_ends(script: Seq<StepClass>, c: Control, e: Event)
    requires
        sound(script, c),
        c.phase != Phase::Stopped,
    ensures
        nearer(script, c, rolling(c, e)),
{
    reveal(rolling);
}

#[verifier::spinoff_prover]
#[verifier::rlimit(60)]
proof fn lemma_detaching_ends(script: Seq<StepClass>, c: Control, e: Event)
    requires
        sound(script, c),
        c.phase != Phase::Stopped,
    ensures
        nearer(script, c, detaching(c, e)),
{
    reveal(detaching);
}

#[verifier::spinoff_prover]
proof fn lemma_growing_ends(script: Seq<StepClass>, c: Control, e: Event)
    requires
        sound(script, c),
        c.phase != Phase::Stopped,
        script.len() <= usize::MAX,
    ensures
        nearer(script, c, growing(script, c, e)),
{
    reveal(growing);
}

#[verifier::spinoff_prover]
proof fn lemma_unbound_ends(script: Seq<StepClass>, c: Control, e: Event)
    requires
        sound(script, c),
        c.phase != Phase::Stopped,
        script.len() <= usize::MAX,
    ensures
        nearer(script, c, unbound(script, c, e)),
{
    reveal(unbound);
    match c.phase {
        Phase::UnboundStep(i) => {
            lemma_mount_below(script, i as int);
        },
        Phase::UnboundUndo(j) => {
            lemma_mount_below(script, j as int);
        },
        _ => {},
    }
}

/// Every answer brings a run nearer to its end, so that no plan is carried out
/// or taken back forever.
pub proof fn every_answer_brings_the_end_nearer(script: Seq<StepClass>, c: Control, e: Event)
    requires
        sound(script, c),
        c.phase != Phase::Stopped,
        script.len() <= usize::MAX,
    ensures
        sound(script, transition(script, c, e).control),
        answers_left(script, transition(script, c, e).control) < answers_left(script, c),
        answers_left(script, transition(script, c, e).control) >= 0,
{
    if c.phase == Phase::Ready {
        lemma_opening_ends(script, c);
    }
    if recorded(c.phase) && !(c.phase is RollBackend || c.phase is RollGone
        || c.phase is RollObserve || c.phase is RollVerify || c.phase is RollRun
        || c.phase is RollRetire) {
        lemma_attaching_ends(script, c, e);
    }
    lemma_preparing_ends(script, c, e);
    lemma_rolling_ends(script, c, e);
    lemma_detaching_ends(script, c, e);
    lemma_growing_ends(script, c, e);
    lemma_unbound_ends(script, c, e);
}

proof fn lemma_mount_below(script: Seq<StepClass>, n: int)
    requires
        0 <= n <= script.len(),
    ensures
        mount_below(script, n) matches Some(j) ==> 0 <= j < n,
    decreases n,
{
    if n > 0 && script[n - 1] != StepClass::Mount {
        lemma_mount_below(script, n - 1);
    }
}

/// Every run has stopped after as many answers as its plan allows.
pub proof fn every_run_ends(script: Seq<StepClass>, kind: Kind, events: Seq<Event>, n: nat)
    requires
        n <= events.len(),
        n >= 12 * script.len() + 50,
        script.len() <= usize::MAX,
    ensures
        state_after(script, kind, events, n).phase == Phase::Stopped,
{
    lemma_run_shrinks(script, kind, events, n);
}

proof fn lemma_run_shrinks(script: Seq<StepClass>, kind: Kind, events: Seq<Event>, n: nat)
    requires
        n <= events.len(),
        script.len() <= usize::MAX,
    ensures
        sound(script, state_after(script, kind, events, n)),
        answers_left(script, state_after(script, kind, events, n)) >= 0,
        state_after(script, kind, events, n).phase == Phase::Stopped || answers_left(
            script,
            state_after(script, kind, events, n),
        ) + n <= 12 * script.len() + 50,
        answers_left(script, state_after(script, kind, events, n)) > 0 || state_after(
            script,
            kind,
            events,
            n,
        ).phase == Phase::Stopped,
    decreases n,
{
    if n > 0 {
        let m = (n - 1) as nat;
        lemma_run_shrinks(script, kind, events, m);
        let c = state_after(script, kind, events, m);
        if c.phase != Phase::Stopped {
            every_answer_brings_the_end_nearer(script, c, events[m as int]);
        }
        let d = state_after(script, kind, events, n);
        assert(d == transition(script, c, events[m as int]).control);
        assert(answers_left(script, d) > 0 || d.phase == Phase::Stopped);
    }
}

// ---------- what favourable answers bring about ----------

/// The answer is the one that an attach hopes for where it stands.
pub open spec fn favourable(phase: Phase, e: Event) -> bool {
    match phase {
        Phase::PriorBackend | Phase::TargetBackend => e == Event::Backend(Backend::Absent),
        Phase::PriorObserve | Phase::TargetObserve => e == Event::Observed(
            Some(DetachObservation { mounted: false, vg_active: false, nbd_in_use: false }),
        ),
        Phase::Verify(_)
        | Phase::ProofProbe(_)
        | Phase::Published(_)
        | Phase::MountBackend(_)
        | Phase::MountBackendAgain(_)
        | Phase::DropBackend(_) => e == Event::Backend(Backend::Ours),
        Phase::Activate(_) => e == (Event::Activated { attempted: true, ok: true }),
        Phase::Capture(_) => e == Event::Captured(Capture::Proof) || e == Event::Captured(
            Capture::Nothing,
        ),
        _ => e == Event::Done(true),
    }
}

/// A step of that class comes before step `i`.
pub open spec fn preceded(script: Seq<StepClass>, i: int, class: StepClass) -> bool
    decreases i,
{
    0 < i <= script.len() && (script[i - 1] == class || preceded(script, i - 1, class))
}

/// Every mount follows an activation, and every sentinel a mount.
pub open spec fn well_ordered(script: Seq<StepClass>) -> bool {
    forall|i: int|
        0 <= i < script.len() ==> (#[trigger] script[i] == StepClass::Mount ==> preceded(
            script,
            i,
            StepClass::Activate,
        )) && (script[i] == StepClass::Sentinel ==> preceded(script, i, StepClass::Mount))
}

/// The step that an attach works on.
spec fn at_step(phase: Phase) -> int {
    match phase {
        Phase::Connect(i)
        | Phase::Waiting(i)
        | Phase::Verify(i)
        | Phase::Preflight(i)
        | Phase::Intent(i)
        | Phase::Activate(i)
        | Phase::Activated(i)
        | Phase::ProofProbe(i)
        | Phase::Capture(i)
        | Phase::Publish(i)
        | Phase::Published(i)
        | Phase::MountBackend(i)
        | Phase::MountMappings(i)
        | Phase::MountFilesystem(i)
        | Phase::MountBackendAgain(i)
        | Phase::MountMappingsAgain(i)
        | Phase::Mounting(i)
        | Phase::MountDevice(i)
        | Phase::DropBackend(i)
        | Phase::Dropping(i)
        | Phase::Step(i) => i as int,
        _ => 0,
    }
}

/// The first `n` steps are behind a run with favourable answers: an activation
/// among them was attempted, and the device of a mount among them verified.
#[verifier::opaque]
spec fn behind(script: Seq<StepClass>, attempted: bool, verified: bool, n: int) -> bool {
    forall|j: int|
        0 <= j < n && j < script.len() ==> (#[trigger] script[j] == StepClass::Activate
            ==> attempted) && (script[j] == StepClass::Mount ==> verified)
}

proof fn lemma_one_more_behind(
    script: Seq<StepClass>,
    attempted: bool,
    verified: bool,
    n: int,
)
    requires
        behind(script, attempted, verified, n),
        0 <= n < script.len() ==> (script[n] == StepClass::Activate ==> attempted) && (script[n]
            == StepClass::Mount ==> verified),
    ensures
        behind(script, attempted, verified, n + 1),
{
    reveal(behind);
}

proof fn lemma_nothing_behind(script: Seq<StepClass>)
    ensures
        behind(script, false, false, 0),
        forall|a: bool, v: bool| #[trigger] behind(script, a, v, 0),
{
    reveal(behind);
}

proof fn lemma_more_done(script: Seq<StepClass>, attempted: bool, verified: bool, n: int)
    requires
        behind(script, attempted, verified, n),
    ensures
        behind(script, true, verified, n),
        behind(script, attempted, true, n),
{
    reveal(behind);
}

proof fn lemma_preceded(
    script: Seq<StepClass>,
    attempted: bool,
    verified: bool,
    n: int,
    i: int,
)
    requires
        behind(script, attempted, verified, n),
        0 <= i <= n,
    ensures
        preceded(script, i, StepClass::Activate) ==> attempted,
        preceded(script, i, StepClass::Mount) ==> verified,
    decreases i,
{
    if 0 < i <= script.len() {
        lemma_preceded(script, attempted, verified, n, i - 1);
        reveal(behind);
    }
}

/// What the next step needs is there.
proof fn lemma_next_is_ready(script: Seq<StepClass>, attempted: bool, verified: bool, i: int)
    requires
        well_ordered(script),
        behind(script, attempted, verified, i),
        0 <= i < script.len(),
    ensures
        script[i] == StepClass::Mount ==> attempted,
        script[i] == StepClass::Sentinel ==> verified,
{
    lemma_preceded(script, attempted, verified, i, i);
}

/// An attach that had favourable answers only stands well.
spec fn stands_well(script: Seq<StepClass>, c: Control) -> bool {
    &&& c.kind is Attach
    &&& c.phase == Phase::Ready || c.phase == Phase::Stopped || preparatory(c.phase) || (working(
        c.phase,
    ) && in_class(script, c.phase) && behind(
        script,
        c.attempted,
        c.device_verified,
        at_step(c.phase),
    ))
    &&& (c.phase is Activated || c.phase is ProofProbe || c.phase is Capture || c.phase is Publish
        || c.phase is Published) ==> c.attempted
}

/// The phases before the record of an attach is written.
spec fn preparatory(phase: Phase) -> bool {
    phase == Phase::PriorBackend || phase == Phase::PriorObserve || phase == Phase::Modprobe
        || phase == Phase::Allocate || phase == Phase::TargetBackend || phase == Phase::Prepare
        || phase == Phase::TargetObserve || phase == Phase::Writing
}

/// The run goes on well, or is finished.
#[verifier::opaque]
spec fn goes_well(script: Seq<StepClass>, x: Next) -> bool {
    &&& x.fault is None
    &&& stands_well(script, x.control)
    &&& x.control.phase == Phase::Stopped <==> x.order is Stop
    &&& x.order is Stop ==> x.order == Order::Stop(End::Finished)
}

proof fn lemma_entered_well(script: Seq<StepClass>, c: Control, i: int)
    requires
        well_ordered(script),
        c.kind is Attach,
        0 <= i,
        behind(script, c.attempted, c.device_verified, i),
        script.len() <= usize::MAX,
    ensures
        goes_well(script, enter(script, c, i)),
{
    reveal(goes_well);
    if i < script.len() {
        lemma_next_is_ready(script, c.attempted, c.device_verified, i);
        match script[i] {
            StepClass::Connect => {},
            StepClass::Activate => {},
            StepClass::Mount => {},
            StepClass::Sentinel => {},
            StepClass::Disconnect => {},
            StepClass::Extend => {},
            StepClass::Plain => {},
        }
    }
}

/// Going on to another phase of the same step.
proof fn lemma_same_step(script: Seq<StepClass>, c: Control, phase: Phase, order: Order)
    requires
        stands_well(script, c),
        working(c.phase),
        working(phase),
        in_class(script, phase),
        at_step(phase) == at_step(c.phase),
        phase is Activated || phase is ProofProbe || phase is Capture || phase is Publish
            || phase is Published ==> c.attempted,
        !(order is Stop),
    ensures
        goes_well(script, to(c, phase, order)),
{
    reveal(goes_well);
}

#[verifier::spinoff_prover]
#[verifier::rlimit(60)]
proof fn lemma_prepares_well(script: Seq<StepClass>, c: Control, e: Event)
    requires
        well_ordered(script),
        stands_well(script, c),
        preparatory(c.phase),
        favourable(c.phase, e),
        script.len() <= usize::MAX,
    ensures
        goes_well(script, preparing(script, c, e)),
{
    reveal(preparing);
    lemma_nothing_behind(script);
    if c.phase == Phase::Writing {
        lemma_entered_well(script, c, 0);
    } else {
        reveal(goes_well);
    }
}

proof fn lemma_opens_well(script: Seq<StepClass>, c: Control)
    requires
        stands_well(script, c),
        c.phase == Phase::Ready,
    ensures
        goes_well(script, opening(script, c)),
{
    reveal(opening);
    reveal(goes_well);
}

#[verifier::spinoff_prover]
#[verifier::rlimit(60)]
proof fn lemma_connects_well(script: Seq<StepClass>, c: Control, e: Event)
    requires
        well_ordered(script),
        stands_well(script, c),
        c.phase is Connect || c.phase is Waiting || c.phase is Verify || c.phase is Step,
        favourable(c.phase, e),
        script.len() <= usize::MAX,
    ensures
        goes_well(script, attaching(script, c, e)),
{
    reveal(attaching);
    match c.phase {
        Phase::Connect(i) => {
            lemma_same_step(script, c, Phase::Waiting(i), Order::WaitReady(i));
        },
        Phase::Waiting(i) => {
            lemma_same_step(script, c, Phase::Verify(i), Order::Probe);
        },
        Phase::Verify(i) => {
            lemma_one_more_behind(script, c.attempted, c.device_verified, i as int);
            lemma_entered_well(script, c, i + 1);
        },
        Phase::Step(i) => {
            lemma_one_more_behind(script, c.attempted, c.device_verified, i as int);
            lemma_entered_well(script, c, i + 1);
        },
        _ => {},
    }
}

#[verifier::spinoff_prover]
#[verifier::rlimit(60)]
proof fn lemma_drops_well(script: Seq<StepClass>, c: Control, e: Event)
    requires
        well_ordered(script),
        stands_well(script, c),
        c.phase is DropBackend || c.phase is Dropping,
        favourable(c.phase, e),
        script.len() <= usize::MAX,
    ensures
        goes_well(script, dropping(script, c, e)),
{
    reveal(dropping);
    match c.phase {
        Phase::DropBackend(i) => {
            lemma_same_step(script, c, Phase::Dropping(i), Order::Run(i));
        },
        Phase::Dropping(i) => {
            lemma_one_more_behind(script, c.attempted, c.device_verified, i as int);
            lemma_entered_well(script, c, i + 1);
        },
        _ => {},
    }
}

#[verifier::spinoff_prover]
#[verifier::rlimit(60)]
proof fn lemma_activates_well(script: Seq<StepClass>, c: Control, e: Event)
    requires
        well_ordered(script),
        stands_well(script, c),
        c.phase is Preflight || c.phase is Intent || c.phase is Activate || c.phase is Activated,
        favourable(c.phase, e),
        script.len() <= usize::MAX,
    ensures
        goes_well(script, attaching(script, c, e)),
{
    reveal(attaching);
    match c.phase {
        Phase::Preflight(i) => {
            lemma_same_step(script, c, Phase::Intent(i), Order::PersistIntent);
        },
        Phase::Intent(i) => {
            lemma_same_step(script, c, Phase::Activate(i), Order::Activate);
        },
        Phase::Activate(i) => {
            let tried = Control { attempted: true, ..c };
            lemma_more_done(script, c.attempted, c.device_verified, i as int);
            lemma_same_step(script, tried, Phase::Activated(i), Order::VerifyActivated);
            assert(c.attempted || true);
        },
        Phase::Activated(i) => {
            lemma_same_step(script, c, Phase::ProofProbe(i), Order::Probe);
        },
        _ => {},
    }
}

#[verifier::spinoff_prover]
#[verifier::rlimit(60)]
proof fn lemma_proves_well(script: Seq<StepClass>, c: Control, e: Event)
    requires
        well_ordered(script),
        stands_well(script, c),
        c.phase is ProofProbe || c.phase is Capture || c.phase is Publish || c.phase is Published,
        favourable(c.phase, e),
        script.len() <= usize::MAX,
    ensures
        goes_well(script, attaching(script, c, e)),
{
    reveal(attaching);
    let i = at_step(c.phase);
    lemma_one_more_behind(script, c.attempted, c.device_verified, i);
    lemma_entered_well(script, c, i + 1);
    match c.phase {
        Phase::ProofProbe(i) => {
            lemma_same_step(script, c, Phase::Capture(i), Order::Capture);
        },
        Phase::Capture(i) => {
            lemma_same_step(script, c, Phase::Publish(i), Order::PersistProof);
        },
        Phase::Publish(i) => {
            lemma_same_step(script, c, Phase::Published(i), Order::Probe);
        },
        _ => {},
    }
}

#[verifier::spinoff_prover]
#[verifier::rlimit(60)]
proof fn lemma_mounts_well(script: Seq<StepClass>, c: Control, e: Event)
    requires
        well_ordered(script),
        stands_well(script, c),
        c.phase is MountBackend || c.phase is MountMappings || c.phase is MountFilesystem
            || c.phase is MountBackendAgain || c.phase is MountMappingsAgain || c.phase is Mounting
            || c.phase is MountDevice,
        favourable(c.phase, e),
        script.len() <= usize::MAX,
    ensures
        goes_well(script, mounting(script, c, e)),
{
    reveal(mounting);
    match c.phase {
        Phase::MountBackend(i) => {
            lemma_same_step(script, c, Phase::MountMappings(i), Order::VerifyActivated);
        },
        Phase::MountMappings(i) => {
            lemma_same_step(script, c, Phase::MountFilesystem(i), Order::VerifyFilesystem(i));
        },
        Phase::MountFilesystem(i) => {
            lemma_same_step(script, c, Phase::MountBackendAgain(i), Order::Probe);
        },
        Phase::MountBackendAgain(i) => {
            lemma_same_step(script, c, Phase::MountMappingsAgain(i), Order::VerifyActivated);
        },
        Phase::MountMappingsAgain(i) => {
            lemma_same_step(script, c, Phase::Mounting(i), Order::Run(i));
        },
        Phase::Mounting(i) => {
            lemma_same_step(script, c, Phase::MountDevice(i), Order::VerifyDevice(i));
        },
        Phase::MountDevice(i) => {
            let verified = Control { device_verified: true, ..c };
            lemma_more_done(script, c.attempted, c.device_verified, i as int);
            lemma_one_more_behind(script, c.attempted, true, i as int);
            lemma_entered_well(script, verified, i + 1);
        },
        _ => {},
    }
}

proof fn lemma_goes_well(script: Seq<StepClass>, c: Control, e: Event)
    requires
        well_ordered(script),
        stands_well(script, c),
        c.phase != Phase::Stopped,
        c.phase == Phase::Ready || favourable(c.phase, e),
        script.len() <= usize::MAX,
    ensures
        goes_well(script, transition(script, c, e)),
{
    if c.phase == Phase::Ready {
        lemma_opens_well(script, c);
    } else if preparatory(c.phase) {
        lemma_prepares_well(script, c, e);
    } else if c.phase is Connect || c.phase is Waiting || c.phase is Verify || c.phase is Step {
        lemma_connects_well(script, c, e);
    } else if c.phase is DropBackend || c.phase is Dropping {
        lemma_drops_well(script, c, e);
    } else if c.phase is Preflight || c.phase is Intent || c.phase is Activate
        || c.phase is Activated {
        lemma_activates_well(script, c, e);
    } else if c.phase is ProofProbe || c.phase is Capture || c.phase is Publish
        || c.phase is Published {
        lemma_proves_well(script, c, e);
    } else {
        lemma_mounts_well(script, c, e);
    }
}

/// All of the first `n` answers were the ones hoped for.
pub open spec fn favoured(
    script: Seq<StepClass>,
    kind: Kind,
    events: Seq<Event>,
    n: nat,
) -> bool
    decreases n,
{
    n == 0 || {
        let m = (n - 1) as nat;
        let phase = state_after(script, kind, events, m).phase;
        favoured(script, kind, events, m) && (phase == Phase::Ready || phase == Phase::Stopped
            || favourable(phase, events[m as int]))
    }
}

proof fn lemma_favoured(script: Seq<StepClass>, kind: Kind, events: Seq<Event>, n: nat)
    requires
        kind is Attach,
        well_ordered(script),
        script.len() <= usize::MAX,
        n <= events.len(),
        favoured(script, kind, events, n),
    ensures
        stands_well(script, state_after(script, kind, events, n)),
    decreases n,
{
    if n > 0 {
        let m = (n - 1) as nat;
        lemma_favoured(script, kind, events, m);
        let c = state_after(script, kind, events, m);
        let e = events[m as int];
        lemma_kind_kept(script, kind, events, n);
        if c.phase != Phase::Stopped {
            lemma_goes_well(script, c, e);
            lemma_well_stands(script, transition(script, c, e));
        } else {
            assert(transition(script, c, e).control.phase == Phase::Stopped);
        }
    }
}

proof fn lemma_well_stands(script: Seq<StepClass>, x: Next)
    requires
        goes_well(script, x),
    ensures
        stands_well(script, x.control),
        x.fault is None,
        x.order is Stop ==> x.order == Order::Stop(End::Finished),
{
    reveal(goes_well);
}

/// An attach that gets the answers it hopes for is never taken back: the only
/// end that it comes to is the good one.
pub proof fn favoured_attaches_finish(
    script: Seq<StepClass>,
    kind: Kind,
    events: Seq<Event>,
    n: int,
)
    requires
        kind is Attach,
        well_ordered(script),
        script.len() <= usize::MAX,
        0 <= n < events.len(),
        favoured(script, kind, events, (n + 1) as nat),
        state_after(script, kind, events, n as nat).phase != Phase::Stopped,
    ensures
        transition(script, state_after(script, kind, events, n as nat), events[n]).fault is None,
        order_at(script, kind, events, n) is Stop ==> order_at(script, kind, events, n)
            == Order::Stop(End::Finished),
{
    lemma_favoured(script, kind, events, n as nat);
    let c = state_after(script, kind, events, n as nat);
    lemma_goes_well(script, c, events[n]);
    lemma_well_stands(script, transition(script, c, events[n]));
}

/// The answer tells of a failure.
pub open spec fn tells_failure(e: Event) -> bool {
    ||| e == Event::Done(false)
    ||| e == Event::Backend(Backend::Foreign)
    ||| e == Event::Backend(Backend::Absent)
    ||| e == Event::Backend(Backend::Unreadable)
    ||| e == Event::Captured(Capture::Failed)
    ||| e matches Event::Activated { ok, .. } && !ok
}

/// The run begins to take back what it did.
pub open spec fn turns_back(x: Next) -> bool {
    x.control.phase == Phase::RollBackend && x.order == Order::Probe && x.fault is Some
}

#[verifier::spinoff_prover]
#[verifier::rlimit(60)]
proof fn lemma_attaching_turns_back(script: Seq<StepClass>, c: Control, e: Event)
    requires
        tells_failure(e),
        c.phase is Connect || c.phase is Waiting || c.phase is Verify || c.phase is Step
            || c.phase is Preflight || c.phase is Intent || c.phase is Activate
            || c.phase is Activated || c.phase is ProofProbe || c.phase is Capture
            || c.phase is Publish || c.phase is Published,
    ensures
        turns_back(attaching(script, c, e)),
{
    reveal(attaching);
}

#[verifier::spinoff_prover]
#[verifier::rlimit(60)]
proof fn lemma_mounting_turns_back(script: Seq<StepClass>, c: Control, e: Event)
    requires
        tells_failure(e),
        c.phase is MountBackend || c.phase is MountMappings || c.phase is MountFilesystem
            || c.phase is MountBackendAgain || c.phase is MountMappingsAgain || c.phase is Mounting
            || c.phase is MountDevice,
    ensures
        turns_back(mounting(script, c, e)),
{
    reveal(mounting);
}

/// Where a step of an attach fails, the attach is taken back, and a backend that
/// is not the recorded one counts as a failure wherever it is asked for.
pub proof fn failed_steps_are_taken_back(script: Seq<StepClass>, c: Control, e: Event)
    requires
        working(c.phase),
        c.kind is Attach,
        tells_failure(e),
    ensures
        turns_back(transition(script, c, e)),
{
    if c.phase is DropBackend || c.phase is Dropping {
        reveal(dropping);
    } else if c.phase is MountBackend || c.phase is MountMappings || c.phase is MountFilesystem
        || c.phase is MountBackendAgain || c.phase is MountMappingsAgain || c.phase is Mounting
        || c.phase is MountDevice {
        lemma_mounting_turns_back(script, c, e);
    } else {
        lemma_attaching_turns_back(script, c, e);
    }
}

/// What is live is taken down from the top: the mount before the group, the
/// group before the device, and the device only when nothing else uses it.
#[verifier::spinoff_prover]
#[verifier::rlimit(60)]
pub proof fn layers_come_down_from_the_top(script: Seq<StepClass>, c: Control, o: DetachObservation)
    requires
        c.phase == Phase::RollObserve || c.phase == Phase::DetachObserve,
    ensures
        ({
            let order = transition(script, c, Event::Observed(Some(o))).order;
            &&& o.mounted && !c.mount_down ==> order == Order::TakeDown(Layer::Mount)
            &&& !o.mounted && o.vg_active && !c.group_down && c.phase == Phase::DetachObserve
                ==> order == Order::TakeDown(Layer::Group)
            &&& !o.mounted && o.vg_active && !c.group_down && c.phase == Phase::RollObserve ==> (
            order == Order::VerifyRollback <==> c.attempted)
            &&& o.is_clear() && !c.device_down ==> order == Order::TakeDown(Layer::Device)
            &&& !o.mounted && !o.vg_active && o.nbd_in_use ==> order is Stop
        }),
{
    reveal(rolling);
    reveal(detaching);
}

/// A layer that came down is followed by another look, in a detach the device by
/// the retirement of the record, and a retired record ends the run.
#[verifier::spinoff_prover]
#[verifier::rlimit(60)]
pub proof fn every_layer_is_followed_by_another_look(script: Seq<StepClass>, c: Control, layer: Layer)
    ensures
        c.phase == Phase::RollRun(layer) ==> {
            let x = transition(script, c, Event::Done(true));
            x.order == Order::Probe && x.control.phase == Phase::RollBackend && is_down(
                x.control,
                layer,
            )
        },
        c.phase == Phase::DetachRun(layer) ==> {
            let x = transition(script, c, Event::Done(true));
            is_down(x.control, layer) && if layer == Layer::Device {
                x.order == Order::Retire
            } else {
                x.order == Order::Probe
            }
        },
        c.phase == Phase::DetachRetire ==> transition(script, c, Event::Done(true)).order
            == Order::Stop(End::Finished),
        c.phase == Phase::RollVerify ==> transition(script, c, Event::Done(true)).order
            == Order::TakeDown(Layer::Group),
        c.phase == Phase::DetachBackend || c.phase == Phase::RollBackend ==> transition(
            script,
            c,
            Event::Backend(Backend::Ours),
        ).order is Observe,
{
    reveal(rolling);
    reveal(detaching);
}

/// A detached or rolled back attachment whose device is gone already only loses
/// its record.
#[verifier::spinoff_prover]
#[verifier::rlimit(60)]
pub proof fn vanished_attachments_only_lose_their_record(script: Seq<StepClass>, c: Control)
    ensures
        c.phase == Phase::RollBackend || (c.phase == Phase::DetachBackend && !c.mount_down
            && !c.group_down && !c.device_down) ==> transition(
            script,
            c,
            Event::Backend(Backend::Absent),
        ).order is Observe,
        c.phase == Phase::RollGone || c.phase == Phase::DetachGone ==> transition(
            script,
            c,
            Event::Observed(
                Some(DetachObservation { mounted: false, vg_active: false, nbd_in_use: false }),
            ),
        ).order == Order::Retire,
{
    reveal(rolling);
    reveal(detaching);
}

/// A growth of a live attachment goes through its steps one after the other: a
/// volume that is short of its size is extended, one that has it is not, and at
/// the end the run is finished.
#[verifier::spinoff_prover]
#[verifier::rlimit(60)]
pub proof fn live_attachments_grow(script: Seq<StepClass>, c: Control, i: usize)
    requires
        i < script.len(),
        script.len() <= usize::MAX,
    ensures
        ({
            let live = Event::Observed(
                Some(DetachObservation { mounted: true, vg_active: true, nbd_in_use: true }),
            );
            let last = i + 1 == script.len();
            &&& c.phase == Phase::GrowBackend(i) || c.phase == Phase::GrowBackendAgain(i)
                ==> transition(script, c, Event::Backend(Backend::Ours)).order == (Order::Observe {
                allow_missing: false,
            })
            &&& c.phase == Phase::GrowObserve(i) ==> transition(script, c, live).order
                == if script[i as int] == StepClass::Extend {
                Order::ReadSize(i)
            } else {
                Order::Run(i)
            }
            &&& c.phase == Phase::GrowSize(i) ==> transition(
                script,
                c,
                Event::Sized(Extent::Short),
            ).order == Order::PersistTarget
            &&& c.phase == Phase::GrowTarget(i) ==> transition(script, c, Event::Done(true)).order
                == Order::Probe
            &&& c.phase == Phase::GrowObserveAgain(i) ==> transition(script, c, live).order
                == Order::Extend(i)
            &&& c.phase == Phase::GrowSize(i) && !last ==> transition(
                script,
                c,
                Event::Sized(Extent::Reached),
            ).control.phase == Phase::GrowBackend((i + 1) as usize)
            &&& (c.phase == Phase::GrowRun(i) || c.phase == Phase::GrowExtend(i)) && !last
                ==> transition(script, c, Event::Done(true)).control.phase == Phase::GrowBackend(
                (i + 1) as usize,
            )
            &&& (c.phase == Phase::GrowRun(i) || c.phase == Phase::GrowExtend(i)) && last
                ==> transition(script, c, Event::Done(true)).order == if (exists|j: int|
                0 <= j < script.len() && #[trigger] script[j] == StepClass::Extend) {
                Order::ClearTarget
            } else {
                Order::Stop(End::Finished)
            }
            &&& c.phase == Phase::GrowClear ==> transition(script, c, Event::Done(true)).order
                == Order::Stop(End::Finished)
        }),
{
    reveal(growing);
}

/// A plan that belongs to no attachment runs its steps in order, and when one
/// fails its mounts are taken back, the latest first.
#[verifier::spinoff_prover]
#[verifier::rlimit(60)]
pub proof fn unbound_steps_run_in_order(script: Seq<StepClass>, c: Control, i: usize)
    requires
        c.phase == Phase::UnboundStep(i),
        i < script.len(),
        script.len() <= usize::MAX,
    ensures
        transition(script, c, Event::Done(true)).order == if i + 1 < script.len() {
            Order::Run((i + 1) as usize)
        } else {
            Order::Stop(End::Finished)
        },
        (forall|j: int| 0 <= j < i ==> #[trigger] script[j] != StepClass::Mount) ==> transition(
            script,
            c,
            Event::Done(false),
        ).order is Stop,
        forall|j: usize|
            #![trigger script[j as int]]
            j < i && script[j as int] == StepClass::Mount && (forall|k: int|
                j < k < i ==> #[trigger] script[k] != StepClass::Mount) ==> transition(
                script,
                c,
                Event::Done(false),
            ).order == Order::Undo(j),
{
    reveal(unbound);
    assert forall|j: usize|
        #![trigger script[j as int]]
        j < i && script[j as int] == StepClass::Mount && (forall|k: int|
            j < k < i ==> #[trigger] script[k] != StepClass::Mount) implies transition(
        script,
        c,
        Event::Done(false),
    ).order == Order::Undo(j) by {
        lemma_latest_mount(script, i as int, j as int);
    }
    if forall|j: int| 0 <= j < i ==> #[trigger] script[j] != StepClass::Mount {
        lemma_no_mount(script, i as int);
    }
}

proof fn lemma_latest_mount(script: Seq<StepClass>, n: int, j: int)
    requires
        0 <= j < n <= script.len(),
        script[j] == StepClass::Mount,
        forall|k: int| j < k < n ==> #[trigger] script[k] != StepClass::Mount,
    ensures
        mount_below(script, n) == Some(j),
    decreases n,
{
    if n - 1 > j {
        lemma_latest_mount(script, n - 1, j);
    }
}

proof fn lemma_no_mount(script: Seq<StepClass>, n: int)
    requires
        0 <= n <= script.len(),
        forall|k: int| 0 <= k < n ==> #[trigger] script[k] != StepClass::Mount,
    ensures
        mount_below(script, n) is None,
    decreases n,
{
    if n > 0 {
        lemma_no_mount(script, n - 1);
    }
}

/// A missing sentinel is forgiven in a rollback exactly while the attach has yet
/// to write it.
pub proof fn missing_sentinels_are_forgiven_until_written(
    script: Seq<StepClass>,
    c: Control,
    e: Event,
    i: usize,
)
    requires
        c.phase == Phase::Step(i),
        e == Event::Done(false),
        i < script.len(),
    ensures
        transition(script, c, e).control.allow_missing <==> exists|j: int|
            i <= j < script.len() && #[trigger] script[j] == StepClass::Sentinel,
{
    reveal(attaching);
    lemma_sentinel_pending(script, i as int);
}

proof fn lemma_sentinel_pending(script: Seq<StepClass>, i: int)
    requires
        0 <= i,
    ensures
        sentinel_pending(script, i) <==> exists|j: int|
            i <= j < script.len() && #[trigger] script[j] == StepClass::Sentinel,
    decreases script.len() - i,
{
    if i < script.len() {
        lemma_sentinel_pending(script, i + 1);
        if script[i] == StepClass::Sentinel {
            assert(i <= i < script.len() && script[i] == StepClass::Sentinel);
        } else if sentinel_pending(script, i + 1) {
            let j = choose|j: int|
                i + 1 <= j < script.len() && #[trigger] script[j] == StepClass::Sentinel;
            assert(script[j] == StepClass::Sentinel);
        }
    }
}

// ---------- how runs fail ----------

/// An attach that is refused before it has changed anything tells why: what it
/// could not read or do is reported, what is connected or live in its way is
/// named.
pub proof fn refused_attaches_tell_why(script: Seq<StepClass>, c: Control, e: Event)
    ensures
        ({
            let x = transition(script, c, e);
            let refused = |fault: Fault| x.order == Order::Stop(End::Refused) && x.fault == Some(
                fault,
            );
            &&& c.phase == Phase::PriorBackend ==> match backend_of(e) {
                Backend::Absent => x.order == Order::ObservePrior && x.fault is None,
                Backend::Unreadable => refused(Fault::Reported),
                _ => refused(Fault::StillConnected),
            }
            &&& c.phase == Phase::TargetBackend ==> match backend_of(e) {
                Backend::Absent => x.order == Order::Prepare && x.fault is None,
                Backend::Unreadable => refused(Fault::Reported),
                _ => refused(Fault::AlreadyConnected),
            }
            &&& c.phase == Phase::PriorObserve && seen(e) is None ==> refused(Fault::Reported)
            &&& c.phase == Phase::PriorObserve ==> (seen(e) matches Some(o) ==> (o.mounted
                || o.vg_active || o.nbd_in_use) ==> refused(Fault::PriorLive))
            &&& c.phase == Phase::TargetObserve && seen(e) is None ==> refused(Fault::Reported)
            &&& c.phase == Phase::TargetObserve ==> (seen(e) matches Some(o) ==> if o.mounted
                || o.vg_active || o.nbd_in_use {
                refused(Fault::TargetLive)
            } else {
                x.order == Order::WriteRecord && x.fault is None
            })
            &&& (c.phase == Phase::Modprobe || c.phase == Phase::Allocate || c.phase
                == Phase::Prepare || c.phase == Phase::Writing) && e != Event::Done(true)
                ==> refused(Fault::Reported)
        }),
{
    reveal(preparing);
}

/// A device is looked for exactly where none was asked for, and always looked at
/// before the record is prepared.
pub proof fn devices_are_allocated_where_none_was_named(
    script: Seq<StepClass>,
    c: Control,
    e: Event,
    prior: bool,
    allocate: bool,
)
    requires
        c.kind == (Kind::Attach { prior, allocate }),
    ensures
        ({
            let x = transition(script, c, e);
            &&& c.phase == Phase::Ready && prior ==> x.order == Order::ProbePrior
            &&& c.phase == Phase::Ready && !prior ==> x.order == if allocate {
                Order::Modprobe
            } else {
                Order::ProbeTarget
            }
            &&& c.phase == Phase::PriorObserve ==> (seen(e) matches Some(o) ==> !o.mounted
                && !o.vg_active && !o.nbd_in_use ==> x.order == if allocate {
                Order::Modprobe
            } else {
                Order::ProbeTarget
            })
            &&& c.phase == Phase::Modprobe && e == Event::Done(true) ==> x.order == Order::Allocate
            &&& c.phase == Phase::Allocate && e == Event::Done(true) ==> x.order
                == Order::ProbeTarget
        }),
{
    reveal(opening);
    reveal(preparing);
}

/// A rollback ends with the number of layers that it took down, without failure
/// only once the record is gone; it retires the record only where nothing is
/// live.
pub proof fn rollbacks_count_what_came_down(script: Seq<StepClass>, c: Control, e: Event)
    requires
        c.phase == Phase::RollBackend || c.phase == Phase::RollGone || c.phase == Phase::RollObserve
            || c.phase == Phase::RollVerify || c.phase is RollRun || c.phase == Phase::RollRetire,
    ensures
        ({
            let x = transition(script, c, e);
            let down = (if c.mount_down {
                1int
            } else {
                0
            }) + (if c.group_down {
                1int
            } else {
                0
            }) + (if c.device_down {
                1int
            } else {
                0
            });
            &&& x.order is Stop ==> x.order == Order::Stop(
                End::RolledBack {
                    rolled_back: down as usize,
                    failed: if c.phase == Phase::RollRetire {
                        0
                    } else {
                        1
                    },
                },
            )
            &&& c.phase == Phase::RollRetire ==> x.order is Stop
            &&& c.phase == Phase::RollGone ==> (x.order == Order::Retire <==> (seen(e) matches Some(
                o,
            ) && !o.mounted && !o.vg_active && !o.nbd_in_use))
            &&& c.phase == Phase::RollBackend ==> (x.order is Stop <==> backend_of(e)
                != Backend::Ours && backend_of(e) != Backend::Absent)
            &&& c.phase == Phase::RollVerify ==> (x.order is Stop <==> e != Event::Done(true))
            &&& c.phase is RollRun ==> (x.order is Stop <==> e != Event::Done(true))
        }),
{
    reveal(rolling);
}

/// A rollback takes down what is live from the top: the group only where an
/// activation was tried, and each layer once.
pub proof fn rollbacks_take_each_layer_once(
    script: Seq<StepClass>,
    c: Control,
    o: DetachObservation,
)
    requires
        c.phase == Phase::RollObserve,
    ensures
        ({
            let x = transition(script, c, Event::Observed(Some(o)));
            &&& o.mounted ==> x.order == if c.mount_down {
                Order::Stop(End::RolledBack { rolled_back: layers_down(c), failed: 1 })
            } else {
                Order::TakeDown(Layer::Mount)
            }
            &&& !o.mounted && o.vg_active ==> x.order == if c.group_down || !c.attempted {
                Order::Stop(End::RolledBack { rolled_back: layers_down(c), failed: 1 })
            } else {
                Order::VerifyRollback
            }
        }),
{
    reveal(rolling);
}

/// A detach that fails before it has taken anything down was refused, and one
/// that fails later has changed something; either tells what stood in its way.
pub proof fn failed_detaches_tell_why(script: Seq<StepClass>, c: Control, e: Event)
    ensures
        ({
            let x = transition(script, c, e);
            let failed = |fault: Fault|
                x.fault == Some(fault) && x.order == Order::Stop(
                    if c.mount_down || c.group_down || c.device_down {
                        End::RolledBack { rolled_back: 0, failed: 0 }
                    } else {
                        End::Refused
                    },
                );
            &&& c.phase == Phase::DetachBackend ==> match backend_of(e) {
                Backend::Ours => x.order == (Order::Observe { allow_missing: false })
                    && x.control.phase == Phase::DetachObserve,
                Backend::Absent => if c.mount_down || c.group_down || c.device_down {
                    failed(Fault::NotOurs)
                } else {
                    x.order == (Order::Observe { allow_missing: false }) && x.control.phase
                        == Phase::DetachGone
                },
                Backend::Unreadable => failed(Fault::Reported),
                _ => failed(Fault::NotOurs),
            }
            &&& c.phase == Phase::DetachGone ==> match seen(e) {
                None => failed(Fault::Reported),
                Some(o) => if o.mounted || o.vg_active || o.nbd_in_use {
                    failed(Fault::BackendLost)
                } else {
                    x.order == Order::Retire
                },
            }
            &&& c.phase == Phase::DetachObserve && seen(e) is None ==> failed(Fault::Reported)
            &&& c.phase == Phase::DetachObserve ==> (seen(e) matches Some(o) ==> {
                &&& o.mounted && c.mount_down ==> failed(Fault::StillThere)
                &&& !o.mounted && o.vg_active && c.group_down ==> failed(Fault::StillThere)
                &&& !o.mounted && !o.vg_active && o.nbd_in_use ==> failed(Fault::InUse)
            })
            &&& c.phase is DetachRun && e != Event::Done(true) ==> x.order == Order::Stop(
                End::RolledBack { rolled_back: 0, failed: 0 },
            ) && x.fault == Some(Fault::Reported)
            &&& c.phase == Phase::DetachRetire ==> x.order == Order::Stop(
                if e == Event::Done(true) {
                    End::Finished
                } else {
                    End::Refused
                },
            )
        }),
{
    reveal(detaching);
}

/// A growth that fails before its first step was refused, and one that fails
/// later has changed something; either tells what stood in its way.
pub proof fn failed_growths_tell_why(script: Seq<StepClass>, c: Control, e: Event, i: usize)
    ensures
        ({
            let x = transition(script, c, e);
            let failed = |fault: Fault|
                x.fault == Some(fault) && x.order == Order::Stop(
                    if i > 0 {
                        End::RolledBack { rolled_back: 0, failed: 0 }
                    } else {
                        End::Refused
                    },
                );
            &&& c.phase == Phase::GrowBackend(i) || c.phase == Phase::GrowBackendAgain(i)
                ==> match backend_of(e) {
                Backend::Ours => x.order == (Order::Observe { allow_missing: false }),
                Backend::Unreadable => failed(Fault::Reported),
                _ => failed(Fault::NotOurs),
            }
            &&& c.phase == Phase::GrowObserve(i) || c.phase == Phase::GrowObserveAgain(i)
                ==> match seen(e) {
                None => failed(Fault::Reported),
                Some(o) => !o.mounted || !o.vg_active ==> failed(Fault::NotMounted),
            }
            &&& c.phase == Phase::GrowSize(i) ==> match e {
                Event::Sized(Extent::Short) => x.order == Order::PersistTarget,
                Event::Sized(Extent::Reached) => !(x.order == Order::PersistTarget),
                _ => failed(Fault::Reported),
            }
            &&& c.phase == Phase::GrowTarget(i) && e != Event::Done(true) ==> failed(
                Fault::Reported,
            )
            &&& (c.phase == Phase::GrowExtend(i) || c.phase == Phase::GrowRun(i) || c.phase
                == Phase::GrowClear) && e != Event::Done(true) ==> x.order == Order::Stop(
                End::RolledBack { rolled_back: 0, failed: 0 },
            ) && x.fault == Some(Fault::Reported)
        }),
{
    reveal(growing);
}

/// A plan without a record takes its mounts back from the last to the first, and
/// counts them.
pub proof fn unbound_mounts_are_taken_back_from_the_last(
    script: Seq<StepClass>,
    c: Control,
    n: int,
    j: int,
)
    requires
        0 <= j < n <= script.len(),
        script[j] == StepClass::Mount,
        forall|k: int| j < k < n ==> #[trigger] script[k] != StepClass::Mount,
    ensures
        mount_below(script, n) == Some(j),
        c.phase == Phase::UnboundStep(n as usize) && n <= usize::MAX ==> {
            let x = transition(script, c, Event::Done(false));
            &&& x.order == Order::Undo(j as usize)
            &&& x.fault == Some(Fault::Reported)
        },
        c.phase == Phase::UnboundUndo(n as usize) && n <= usize::MAX ==> {
            let x = transition(script, c, Event::Done(true));
            &&& x.order == Order::Undo(j as usize)
            &&& x.control.undone == (c.undone + 1) as usize
        },
    decreases n,
{
    reveal(unbound);
    if j < n - 1 {
        let shorter = Control { phase: Phase::Stopped, ..c };
        unbound_mounts_are_taken_back_from_the_last(script, shorter, n - 1, j);
    }
}

/// Without a mount left to take back, the rollback of such a plan ends with the
/// number of mounts that it took back; a mount that cannot be taken back ends it
/// too, with a failure.
pub proof fn unbound_rollbacks_count_their_mounts(script: Seq<StepClass>, c: Control, n: int)
    requires
        0 <= n <= script.len(),
        n <= usize::MAX,
        forall|k: int| 0 <= k < n ==> #[trigger] script[k] != StepClass::Mount,
    ensures
        mount_below(script, n) is None,
        c.phase == Phase::UnboundStep(n as usize) ==> transition(
            script,
            c,
            Event::Done(false),
        ).order == Order::Stop(End::RolledBack { rolled_back: c.undone, failed: 0 }),
        c.phase == Phase::UnboundUndo(n as usize) ==> transition(
            script,
            c,
            Event::Done(true),
        ).order == Order::Stop(
            End::RolledBack { rolled_back: (c.undone + 1) as usize, failed: 0 },
        ),
        c.phase == Phase::UnboundUndo(n as usize) ==> transition(
            script,
            c,
            Event::Done(false),
        ).order == Order::Stop(End::RolledBack { rolled_back: c.undone, failed: 1 }),
    decreases n,
{
    reveal(unbound);
    if n > 0 {
        let shorter = Control { phase: Phase::Stopped, ..c };
        unbound_rollbacks_count_their_mounts(script, shorter, n - 1);
    }
}

} // verus!
