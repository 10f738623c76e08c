//! The executor: what the orders of a [`run`](crate::run) mean for one plan.
//!
//! An [`Executor`] is started on a plan and on what the trusted state holds for
//! its volume. From then on it is handed one [`Answer`] at a time and says
//! which [`Action`] to perform next, until it says to stop. It keeps the record
//! of the attachment: the one that a detach or a growth acts on, or the one
//! that an attach prepares, extends and finally retires or leaves.

use vstd::prelude::*;

use crate::detach::DetachObservation;
use crate::exec::{choose_target, identity_error, verify_filesystem_probe, ExecError};
use crate::lvm_preflight::{check_nodes, verify_recovery_mapping, VerifiedLvm};
use crate::model::copy_bytes;
use crate::plan::{
    bound_device_record_path, undo_step, AttachmentIdentity, Plan, PlannedStep, AUTO_NBD_DEVICE,
};
use crate::recover::{RecoveryIntent, RecoveryProof};
use crate::run::{
    advance, begin, Backend, Capture, Control, End, Event, Extent, Fault, Kind, Layer, Order, Phase,
    StepClass,
};
use crate::state::BoundDeviceRecord;
use crate::sysfs::BlockTree;
use crate::text::{join2, join3, same, trim};
use crate::verify::{verify_mount_device, MountObservation};

verus! {

broadcast use vstd::seq::group_seq_axioms;

// ---------- answers and actions ----------

/// What came of an action.
pub enum Answer {
    /// Nothing was done yet.
    Start,
    /// The identifier of a device's backend, or that it has none.
    Backend(Result<Option<String>, String>),
    /// What is live of an attachment.
    Observed(Result<DetachObservation, String>),
    /// Whether it succeeded.
    Ran(Result<(), ExecError>),
    /// The free device.
    Allocated(Result<String, ExecError>),
    /// A random identifier.
    Nonce(Result<String, String>),
    /// The verified metadata.
    Verified(Result<VerifiedLvm, ExecError>),
    /// Whether an activation was attempted, and whether it succeeded.
    Activated { attempted: bool, result: Result<(), ExecError> },
    /// The active mappings, where they can be recorded.
    Captured(Result<Option<RecoveryProof>, String>),
    /// Whether a probe of a filesystem's identity succeeded, and what it wrote.
    Identified(Result<(bool, Vec<u8>), String>),
    /// What is mounted.
    Mounted(Result<MountObservation, String>),
    /// The size of a volume in bytes.
    Size(Result<u64, String>),
}

/// What to do.
pub enum Action {
    /// Read the backend of a device.
    Probe(String),
    /// Observe what is live of an attachment.
    Observe { record: BoundDeviceRecord, allow_missing: bool },
    /// Run a step; a connecting one with its identifier.
    Run { step: PlannedStep, identifier: Option<String> },
    /// Choose a free device.
    Allocate,
    /// Draw a random identifier.
    DrawNonce,
    /// Write a record.
    WriteRecord(BoundDeviceRecord),
    /// Wait until a device is ready.
    WaitReady { step: PlannedStep, device: String },
    /// Verify the LVM metadata on the device of an attachment.
    Preflight(BoundDeviceRecord),
    /// Activate exactly the verified group.
    Activate { record: BoundDeviceRecord, verified: VerifiedLvm },
    /// Verify the mappings of the active group.
    VerifyActivated { record: BoundDeviceRecord, verified: VerifiedLvm },
    /// Record the active mappings.
    Capture(BoundDeviceRecord),
    /// Probe the identity of the filesystem on a device.
    Identify { device: String },
    /// Observe what is mounted, without touching it.
    ObserveMount { mountpoint: String, device: String },
    /// Read the size of the volume that a step extends.
    ReadSize(PlannedStep),
    /// Extend that volume to a size in bytes.
    Extend { step: PlannedStep, target: u64 },
    /// Verify that the mappings are those of the verified group.
    VerifyRollback { record: BoundDeviceRecord, verified: VerifiedLvm },
    /// Deactivate exactly the verified group.
    Deactivate { record: BoundDeviceRecord, verified: VerifiedLvm },
    /// Retire the record of a volume.
    Retire(String),
    /// The run is over; see [`Executor::finish`].
    Stop(End),
}

/// The model of an [`Action`].
pub enum Deed {
    Probe(Seq<char>),
    Observe { record: crate::state::Record, allow_missing: bool },
    Run { step: crate::plan::Step, identifier: Option<Seq<char>> },
    Allocate,
    DrawNonce,
    WriteRecord(crate::state::Record),
    WaitReady { step: crate::plan::Step, device: Seq<char> },
    Preflight(crate::state::Record),
    Activate { record: crate::state::Record, verified: crate::lvm_preflight::Verified },
    VerifyActivated { record: crate::state::Record, verified: crate::lvm_preflight::Verified },
    Capture(crate::state::Record),
    Identify { device: Seq<char> },
    ObserveMount { mountpoint: Seq<char>, device: Seq<char> },
    ReadSize(crate::plan::Step),
    Extend { step: crate::plan::Step, target: u64 },
    VerifyRollback { record: crate::state::Record, verified: crate::lvm_preflight::Verified },
    Deactivate { record: crate::state::Record, verified: crate::lvm_preflight::Verified },
    Retire(Seq<char>),
    Stop(End),
}

impl View for Action {
    type V = Deed;

    open spec fn view(&self) -> Deed {
        match *self {
            Action::Probe(device) => Deed::Probe(device@),
            Action::Observe { record, allow_missing } => Deed::Observe {
                record: record@,
                allow_missing,
            },
            Action::Run { step, identifier } => Deed::Run {
                step: step@,
                identifier: crate::text::optional(identifier),
            },
            Action::Allocate => Deed::Allocate,
            Action::DrawNonce => Deed::DrawNonce,
            Action::WriteRecord(record) => Deed::WriteRecord(record@),
            Action::WaitReady { step, device } => Deed::WaitReady { step: step@, device: device@ },
            Action::Preflight(record) => Deed::Preflight(record@),
            Action::Activate { record, verified } => Deed::Activate {
                record: record@,
                verified: verified@,
            },
            Action::VerifyActivated { record, verified } => Deed::VerifyActivated {
                record: record@,
                verified: verified@,
            },
            Action::Capture(record) => Deed::Capture(record@),
            Action::Identify { device } => Deed::Identify { device: device@ },
            Action::ObserveMount { mountpoint, device } => Deed::ObserveMount {
                mountpoint: mountpoint@,
                device: device@,
            },
            Action::ReadSize(step) => Deed::ReadSize(step@),
            Action::Extend { step, target } => Deed::Extend { step: step@, target },
            Action::VerifyRollback { record, verified } => Deed::VerifyRollback {
                record: record@,
                verified: verified@,
            },
            Action::Deactivate { record, verified } => Deed::Deactivate {
                record: record@,
                verified: verified@,
            },
            Action::Retire(volume) => Deed::Retire(volume@),
            Action::Stop(end) => Deed::Stop(end),
        }
    }
}

// ---------- the shape of a plan ----------

/// What a step is to the run.
pub open spec fn class_of(step: crate::plan::Step) -> StepClass {
    match step {
        crate::plan::Step::NbdConnect { .. } => StepClass::Connect,
        crate::plan::Step::LvmActivate { .. } => StepClass::Activate,
        crate::plan::Step::MountXfs { .. } => StepClass::Mount,
        crate::plan::Step::WriteSentinel { .. } => StepClass::Sentinel,
        crate::plan::Step::NbdDisconnect { .. } => StepClass::Disconnect,
        crate::plan::Step::LvExtend { .. } => StepClass::Extend,
        _ => StepClass::Plain,
    }
}

/// What the steps are to the run.
pub open spec fn classes(steps: Seq<crate::plan::Step>) -> Seq<StepClass> {
    steps.map_values(|s: crate::plan::Step| class_of(s))
}

/// The device of the first connecting step from `i` on.
pub open spec fn connect_device(steps: Seq<crate::plan::Step>, i: int) -> Option<Seq<char>>
    decreases steps.len() - i,
{
    if i < 0 || i >= steps.len() {
        None
    } else {
        match steps[i] {
            crate::plan::Step::NbdConnect { device, .. } => Some(device),
            _ => connect_device(steps, i + 1),
        }
    }
}

/// The filesystem UUID that the first identity check from step `i` on pins.
pub open spec fn pinned_uuid(steps: Seq<crate::plan::Step>, i: int) -> Option<Seq<char>>
    decreases steps.len() - i,
{
    if i < 0 || i >= steps.len() {
        None
    } else {
        match steps[i] {
            crate::plan::Step::VerifyMountIdentity { fs_uuid, .. } => fs_uuid,
            _ => pinned_uuid(steps, i + 1),
        }
    }
}

/// What a step mounts, and where.
pub open spec fn mount_of(step: crate::plan::Step) -> (Seq<char>, Seq<char>) {
    match step {
        crate::plan::Step::MountXfs { device, mountpoint } => (device, mountpoint),
        _ => (Seq::empty(), Seq::empty()),
    }
}

/// By how many bytes the step that a growth stands at extends its volume.
pub open spec fn increase(steps: Seq<crate::plan::Step>, phase: Phase) -> u64 {
    match phase {
        Phase::GrowSize(i) => match steps[i as int] {
            crate::plan::Step::LvExtend { add_bytes, .. } => add_bytes,
            _ => 0,
        },
        _ => 0,
    }
}

/// Some step disconnects a device.
pub open spec fn disconnects(steps: Seq<crate::plan::Step>) -> bool {
    exists|i: int| 0 <= i < steps.len() && #[trigger] steps[i] is NbdDisconnect
}

/// The step enlarges a volume or its filesystem.
pub open spec fn enlarges(step: crate::plan::Step) -> bool {
    step is LvExtend || step is XfsGrowfs
}

/// Some step enlarges a volume or its filesystem.
pub open spec fn grows(steps: Seq<crate::plan::Step>) -> bool {
    exists|i: int| 0 <= i < steps.len() && enlarges(#[trigger] steps[i])
}

/// Every activation is that of the attachment's group.
pub open spec fn activations_match(
    steps: Seq<crate::plan::Step>,
    attachment: Option<crate::plan::Identity>,
) -> bool {
    forall|i: int|
        0 <= i < steps.len() ==> (#[trigger] steps[i] matches crate::plan::Step::LvmActivate {
            vg_name,
        } ==> attachment is Some && vg_name == attachment->Some_0.vg_name)
}

/// Every disconnection is that of the device that the plan connects first.
pub open spec fn disconnections_match(steps: Seq<crate::plan::Step>) -> bool {
    forall|i: int|
        0 <= i < steps.len() ==> (#[trigger] steps[i] matches crate::plan::Step::NbdDisconnect {
            device,
        } ==> connect_device(steps, 0) == Some(device))
}

/// A growth names no other attachment than the recorded one.
pub open spec fn growth_matches(
    attachment: Option<crate::plan::Identity>,
    record: crate::state::Record,
) -> bool {
    attachment is None || attachment == Some(record.attachment)
}

/// The steps of a detach of the recorded attachment.
pub open spec fn detaches(steps: Seq<crate::plan::Step>, record: crate::state::Record) -> bool {
    &&& steps.len() == 3
    &&& steps[0] == crate::plan::Step::Umount { mountpoint: record.attachment.mountpoint }
    &&& steps[1] == crate::plan::Step::LvmDeactivate { vg_name: record.attachment.vg_name }
    &&& steps[2] matches crate::plan::Step::NbdDisconnect { device } && (device
        == AUTO_NBD_DEVICE@ || device == record.device)
}

/// The step enlarges something of the recorded attachment.
pub open spec fn enlarges_own(step: crate::plan::Step, record: crate::state::Record) -> bool {
    match step {
        crate::plan::Step::LvExtend { vg_name, lv_name, .. } => vg_name
            == record.attachment.vg_name && lv_name == record.attachment.lv_name,
        crate::plan::Step::XfsGrowfs { mountpoint } => mountpoint == record.attachment.mountpoint,
        _ => false,
    }
}

/// Every step enlarges something of the recorded attachment.
pub open spec fn grows_own(steps: Seq<crate::plan::Step>, record: crate::state::Record) -> bool {
    forall|i: int| 0 <= i < steps.len() ==> enlarges_own(#[trigger] steps[i], record)
}

fn class_step(step: &PlannedStep) -> (r: StepClass)
    ensures
        r == class_of(step@),
{
    match step {
        PlannedStep::NbdConnect { .. } => StepClass::Connect,
        PlannedStep::LvmActivate { .. } => StepClass::Activate,
        PlannedStep::MountXfs { .. } => StepClass::Mount,
        PlannedStep::WriteSentinel { .. } => StepClass::Sentinel,
        PlannedStep::NbdDisconnect { .. } => StepClass::Disconnect,
        PlannedStep::LvExtend { .. } => StepClass::Extend,
        _ => StepClass::Plain,
    }
}

fn classify(steps: &Vec<PlannedStep>) -> (r: Vec<StepClass>)
    ensures
        r@ == classes(crate::plan::steps_view(steps@)),
{
    let mut out: Vec<StepClass> = Vec::new();
    let mut i: usize = 0;
    while i < steps.len()
        invariant
            i <= steps.len(),
            out.len() == i,
            forall|k: int| 0 <= k < i ==> #[trigger] out@[k] == class_of(steps@[k]@),
        decreases steps.len() - i,
    {
        out.push(class_step(&steps[i]));
        i += 1;
    }
    assert(out@ =~= classes(crate::plan::steps_view(steps@)));
    out
}

fn find_connect_device<'a>(steps: &'a Vec<PlannedStep>) -> (r: Option<&'a str>)
    ensures
        match r {
            Some(d) => connect_device(crate::plan::steps_view(steps@), 0) == Some(d@),
            None => connect_device(crate::plan::steps_view(steps@), 0) is None,
        },
{
    let ghost view = crate::plan::steps_view(steps@);
    let mut i: usize = 0;
    while i < steps.len()
        invariant
            i <= steps.len(),
            view == crate::plan::steps_view(steps@),
            connect_device(view, 0) == connect_device(view, i as int),
        decreases steps.len() - i,
    {
        assert(view[i as int] == steps@[i as int]@);
        match &steps[i] {
            PlannedStep::NbdConnect { device, .. } => return Some(device.as_str()),
            _ => {},
        }
        i += 1;
    }
    None
}

fn find_pinned_uuid<'a>(steps: &'a Vec<PlannedStep>) -> (r: Option<&'a str>)
    ensures
        match r {
            Some(u) => pinned_uuid(crate::plan::steps_view(steps@), 0) == Some(u@),
            None => pinned_uuid(crate::plan::steps_view(steps@), 0) is None,
        },
{
    let ghost view = crate::plan::steps_view(steps@);
    let mut i: usize = 0;
    while i < steps.len()
        invariant
            i <= steps.len(),
            view == crate::plan::steps_view(steps@),
            pinned_uuid(view, 0) == pinned_uuid(view, i as int),
        decreases steps.len() - i,
    {
        assert(view[i as int] == steps@[i as int]@);
        match &steps[i] {
            PlannedStep::VerifyMountIdentity { fs_uuid, .. } => return match fs_uuid {
                Some(uuid) => Some(uuid.as_str()),
                None => None,
            },
            _ => {},
        }
        i += 1;
    }
    None
}

fn mount_parts(step: &PlannedStep) -> (r: (String, String))
    ensures
        (r.0@, r.1@) == mount_of(step@),
{
    match step {
        PlannedStep::MountXfs { device, mountpoint } => (device.clone(), mountpoint.clone()),
        _ => (String::new(), String::new()),
    }
}

fn has_disconnect(steps: &Vec<PlannedStep>) -> (r: bool)
    ensures
        r == disconnects(crate::plan::steps_view(steps@)),
{
    let ghost view = crate::plan::steps_view(steps@);
    let mut i: usize = 0;
    while i < steps.len()
        invariant
            i <= steps.len(),
            view == crate::plan::steps_view(steps@),
            forall|k: int| 0 <= k < i ==> !(#[trigger] view[k] is NbdDisconnect),
        decreases steps.len() - i,
    {
        assert(view[i as int] == steps@[i as int]@);
        match &steps[i] {
            PlannedStep::NbdDisconnect { .. } => return true,
            _ => {},
        }
        i += 1;
    }
    false
}

fn has_growth(steps: &Vec<PlannedStep>) -> (r: bool)
    ensures
        r == grows(crate::plan::steps_view(steps@)),
{
    let ghost view = crate::plan::steps_view(steps@);
    let mut i: usize = 0;
    while i < steps.len()
        invariant
            i <= steps.len(),
            view == crate::plan::steps_view(steps@),
            forall|k: int| 0 <= k < i ==> !enlarges(#[trigger] view[k]),
        decreases steps.len() - i,
    {
        assert(view[i as int] == steps@[i as int]@);
        match &steps[i] {
            PlannedStep::LvExtend { .. } => return true,
            PlannedStep::XfsGrowfs { .. } => return true,
            _ => {},
        }
        i += 1;
    }
    false
}

/// The texts of an optional attachment.
pub open spec fn identity_view(a: Option<AttachmentIdentity>) -> Option<crate::plan::Identity> {
    match a {
        Some(a) => Some(a@),
        None => None,
    }
}

fn check_activations(steps: &Vec<PlannedStep>, attachment: &Option<AttachmentIdentity>) -> (r: bool)
    ensures
        r == activations_match(crate::plan::steps_view(steps@), identity_view(*attachment)),
{
    let ghost view = crate::plan::steps_view(steps@);
    let ghost identity = identity_view(*attachment);
    let mut i: usize = 0;
    while i < steps.len()
        invariant
            i <= steps.len(),
            view == crate::plan::steps_view(steps@),
            identity == identity_view(*attachment),
            forall|k: int|
                0 <= k < i ==> (#[trigger] view[k] matches crate::plan::Step::LvmActivate {
                    vg_name,
                } ==> identity is Some && vg_name == identity->Some_0.vg_name),
        decreases steps.len() - i,
    {
        assert(view[i as int] == steps@[i as int]@);
        match &steps[i] {
            PlannedStep::LvmActivate { vg_name } => {
                let own = match attachment {
                    Some(a) => same(vg_name.as_str(), a.vg_name.as_str()),
                    None => false,
                };
                if !own {
                    return false;
                }
            },
            _ => {},
        }
        i += 1;
    }
    true
}

fn check_disconnections(steps: &Vec<PlannedStep>) -> (r: bool)
    ensures
        r == disconnections_match(crate::plan::steps_view(steps@)),
{
    let ghost view = crate::plan::steps_view(steps@);
    let connected = find_connect_device(steps);
    let mut i: usize = 0;
    while i < steps.len()
        invariant
            i <= steps.len(),
            view == crate::plan::steps_view(steps@),
            match connected {
                Some(d) => connect_device(view, 0) == Some(d@),
                None => connect_device(view, 0) is None,
            },
            forall|k: int|
                0 <= k < i ==> (#[trigger] view[k] matches crate::plan::Step::NbdDisconnect {
                    device,
                } ==> connect_device(view, 0) == Some(device)),
        decreases steps.len() - i,
    {
        assert(view[i as int] == steps@[i as int]@);
        match &steps[i] {
            PlannedStep::NbdDisconnect { device } => {
                let own = match connected {
                    Some(d) => same(d, device.as_str()),
                    None => false,
                };
                if !own {
                    return false;
                }
            },
            _ => {},
        }
        i += 1;
    }
    true
}

pub(crate) fn check_detach(steps: &Vec<PlannedStep>, record: &BoundDeviceRecord) -> (r: bool)
    ensures
        r == detaches(crate::plan::steps_view(steps@), record@),
{
    let ghost view = crate::plan::steps_view(steps@);
    if steps.len() != 3 {
        return false;
    }
    assert(view[0] == steps@[0]@ && view[1] == steps@[1]@ && view[2] == steps@[2]@);
    let unmounts = match &steps[0] {
        PlannedStep::Umount { mountpoint } => same(
            mountpoint.as_str(),
            record.attachment.mountpoint.as_str(),
        ),
        _ => false,
    };
    let deactivates = match &steps[1] {
        PlannedStep::LvmDeactivate { vg_name } => same(
            vg_name.as_str(),
            record.attachment.vg_name.as_str(),
        ),
        _ => false,
    };
    let disconnects = match &steps[2] {
        PlannedStep::NbdDisconnect { device } => same(device.as_str(), AUTO_NBD_DEVICE) || same(
            device.as_str(),
            record.device.as_str(),
        ),
        _ => false,
    };
    unmounts && deactivates && disconnects
}

fn check_growth(steps: &Vec<PlannedStep>, record: &BoundDeviceRecord) -> (r: bool)
    ensures
        r == grows_own(crate::plan::steps_view(steps@), record@),
{
    let ghost view = crate::plan::steps_view(steps@);
    let mut i: usize = 0;
    while i < steps.len()
        invariant
            i <= steps.len(),
            view == crate::plan::steps_view(steps@),
            forall|k: int| 0 <= k < i ==> enlarges_own(#[trigger] view[k], record@),
        decreases steps.len() - i,
    {
        assert(view[i as int] == steps@[i as int]@);
        let own = match &steps[i] {
            PlannedStep::LvExtend { vg_name, lv_name, .. } => same(
                vg_name.as_str(),
                record.attachment.vg_name.as_str(),
            ) && same(lv_name.as_str(), record.attachment.lv_name.as_str()),
            PlannedStep::XfsGrowfs { mountpoint } => same(
                mountpoint.as_str(),
                record.attachment.mountpoint.as_str(),
            ),
            _ => false,
        };
        if !own {
            return false;
        }
        i += 1;
    }
    true
}

// ---------- what a run needs ----------

/// What a run that stands there waits for.
pub open spec fn awaited(c: Control) -> Order {
    match c.phase {
        Phase::Ready | Phase::Stopped => Order::Stop(End::Refused),
        Phase::PriorBackend => Order::ProbePrior,
        Phase::PriorObserve => Order::ObservePrior,
        Phase::Modprobe => Order::Modprobe,
        Phase::Allocate => Order::Allocate,
        Phase::TargetBackend => Order::ProbeTarget,
        Phase::Prepare => Order::Prepare,
        Phase::TargetObserve => Order::ObserveTarget,
        Phase::Writing => Order::WriteRecord,
        Phase::Connect(i)
        | Phase::Mounting(i)
        | Phase::Dropping(i)
        | Phase::Step(i)
        | Phase::GrowRun(i)
        | Phase::UnboundStep(i) => Order::Run(i),
        Phase::Waiting(i) => Order::WaitReady(i),
        Phase::Verify(_)
        | Phase::ProofProbe(_)
        | Phase::Published(_)
        | Phase::MountBackend(_)
        | Phase::MountBackendAgain(_)
        | Phase::DropBackend(_)
        | Phase::RollBackend
        | Phase::DetachBackend
        | Phase::GrowBackend(_)
        | Phase::GrowBackendAgain(_) => Order::Probe,
        Phase::Preflight(_) => Order::Preflight,
        Phase::Intent(_) => Order::PersistIntent,
        Phase::Activate(_) => Order::Activate,
        Phase::Activated(_)
        | Phase::MountMappings(_)
        | Phase::MountMappingsAgain(_) => Order::VerifyActivated,
        Phase::MountFilesystem(i) => Order::VerifyFilesystem(i),
        Phase::MountDevice(i) => Order::VerifyDevice(i),
        Phase::Capture(_) => Order::Capture,
        Phase::Publish(_) => Order::PersistProof,
        Phase::RollGone | Phase::RollObserve => Order::Observe { allow_missing: c.allow_missing },
        Phase::DetachGone
        | Phase::DetachObserve
        | Phase::GrowObserve(_)
        | Phase::GrowObserveAgain(_) => Order::Observe { allow_missing: false },
        Phase::GrowSize(i) => Order::ReadSize(i),
        Phase::GrowTarget(_) => Order::PersistTarget,
        Phase::GrowExtend(i) => Order::Extend(i),
        Phase::GrowClear => Order::ClearTarget,
        Phase::RollVerify => Order::VerifyRollback,
        Phase::RollRun(layer) | Phase::DetachRun(layer) => Order::TakeDown(layer),
        Phase::RollRetire | Phase::DetachRetire => Order::Retire,
        Phase::UnboundUndo(j) => Order::Undo(j),
    }
}

/// The phases of an attach that work on its record.
pub open spec fn on_record(phase: Phase) -> bool {
    phase == Phase::TargetObserve || phase == Phase::Writing || crate::run::recorded(phase)
}

/// The states of an attach that work on its verified metadata.
pub open spec fn on_metadata(c: Control) -> bool {
    c.attempted || match c.phase {
        Phase::Intent(_)
        | Phase::Activate(_)
        | Phase::Activated(_)
        | Phase::MountBackend(_)
        | Phase::MountMappings(_)
        | Phase::MountFilesystem(_)
        | Phase::MountBackendAgain(_)
        | Phase::MountMappingsAgain(_)
        | Phase::RollVerify
        | Phase::RollRun(Layer::Group) => true,
        _ => false,
    }
}

/// The phases of a run that has failed and takes something back.
pub open spec fn failing(phase: Phase) -> bool {
    match phase {
        Phase::RollBackend
        | Phase::RollGone
        | Phase::RollObserve
        | Phase::RollVerify
        | Phase::RollRun(_)
        | Phase::RollRetire
        | Phase::UnboundUndo(_) => true,
        _ => false,
    }
}

/// The phases of a growth that has set itself a size.
pub open spec fn aiming(phase: Phase) -> bool {
    phase is GrowTarget || phase is GrowBackendAgain || phase is GrowObserveAgain
        || phase is GrowExtend
}

/// The run ends in failure.
pub open spec fn ends_badly(order: Order) -> bool {
    order is Stop && order != Order::Stop(End::Finished)
}

/// What one answer asks of the executor.
spec fn consistent(script: Seq<StepClass>, c: Control, e: Event, x: crate::run::Next) -> bool {
    &&& x.control.kind == c.kind
    &&& crate::run::of_kind(c.kind, x.control.phase)
    &&& x.order is Stop <==> x.control.phase == Phase::Stopped
    &&& x.control.phase != Phase::Stopped ==> x.order == awaited(x.control)
    &&& x.control.phase != Phase::Ready
    &&& x.control.phase == Phase::PriorBackend || x.control.phase == Phase::PriorObserve ==> (
    c.kind matches Kind::Attach { prior, .. } && prior)
    &&& on_record(x.control.phase) ==> on_record(c.phase) || (c.phase == Phase::Prepare
        && crate::run::succeeded(e))
    &&& on_metadata(x.control) ==> on_metadata(c) || (c.phase is Preflight
        && crate::run::succeeded(e))
    &&& aiming(x.control.phase) ==> aiming(c.phase) || (c.phase is GrowSize && e == Event::Sized(
        Extent::Short,
    ))
    &&& x.control.phase matches Phase::UnboundUndo(j) ==> j < script.len() && script[j as int]
        == StepClass::Mount
    &&& x.fault is Some ==> failing(x.control.phase) || ends_badly(x.order)
    &&& failing(x.control.phase) || ends_badly(x.order) ==> x.fault is Some || failing(c.phase)
    &&& failing(c.phase) ==> failing(x.control.phase) || ends_badly(x.order)
}

proof fn lemma_mount_below_class(script: Seq<StepClass>, n: int)
    ensures
        crate::run::mount_below(script, n) matches Some(j) ==> 0 <= j < n && j < script.len()
            && script[j] == StepClass::Mount,
    decreases n,
{
    if 0 < n <= script.len() && script[n - 1] != StepClass::Mount {
        lemma_mount_below_class(script, n - 1);
    }
}

#[verifier::spinoff_prover]
#[verifier::rlimit(60)]
proof fn lemma_opening(script: Seq<StepClass>, c: Control, e: Event)
    requires
        c.phase == Phase::Ready,
        script.len() <= usize::MAX,
    ensures
        consistent(script, c, e, crate::run::opening(script, c)),
{
    reveal(crate::run::opening);
}

#[verifier::spinoff_prover]
#[verifier::rlimit(60)]
proof fn lemma_preparing(script: Seq<StepClass>, c: Control, e: Event)
    requires
        crate::run::of_kind(c.kind, c.phase),
        c.kind is Attach,
        (c.phase == Phase::PriorBackend || c.phase == Phase::PriorObserve) ==> (
        c.kind matches Kind::Attach { prior, .. } && prior),
        script.len() <= usize::MAX,
        !failing(c.phase),
    ensures
        consistent(script, c, e, crate::run::preparing(script, c, e)),
{
    reveal(crate::run::preparing);
}

#[verifier::spinoff_prover]
#[verifier::rlimit(100)]
proof fn lemma_connecting(script: Seq<StepClass>, c: Control, e: Event)
    requires
        c.phase is Connect || c.phase is Waiting || c.phase is Verify || c.phase is Step,
        c.kind is Attach,
        script.len() <= usize::MAX,
    ensures
        consistent(script, c, e, crate::run::attaching(script, c, e)),
{
    reveal(crate::run::attaching);
}

#[verifier::spinoff_prover]
#[verifier::rlimit(100)]
proof fn lemma_activating(script: Seq<StepClass>, c: Control, e: Event)
    requires
        c.phase is Preflight || c.phase is Intent || c.phase is Activate || c.phase is Activated,
        c.kind is Attach,
        script.len() <= usize::MAX,
    ensures
        consistent(script, c, e, crate::run::attaching(script, c, e)),
{
    reveal(crate::run::attaching);
}

#[verifier::spinoff_prover]
#[verifier::rlimit(100)]
proof fn lemma_proving(script: Seq<StepClass>, c: Control, e: Event)
    requires
        c.phase is ProofProbe || c.phase is Capture || c.phase is Publish || c.phase is Published,
        c.kind is Attach,
        script.len() <= usize::MAX,
    ensures
        consistent(script, c, e, crate::run::attaching(script, c, e)),
{
    reveal(crate::run::attaching);
}

#[verifier::spinoff_prover]
#[verifier::rlimit(100)]
proof fn lemma_mounting(script: Seq<StepClass>, c: Control, e: Event)
    requires
        crate::run::working(c.phase),
        c.kind is Attach,
        script.len() <= usize::MAX,
    ensures
        consistent(script, c, e, crate::run::mounting(script, c, e)),
{
    reveal(crate::run::mounting);
}

#[verifier::spinoff_prover]
#[verifier::rlimit(100)]
proof fn lemma_dropping(script: Seq<StepClass>, c: Control, e: Event)
    requires
        crate::run::working(c.phase),
        c.kind is Attach,
        script.len() <= usize::MAX,
    ensures
        consistent(script, c, e, crate::run::dropping(script, c, e)),
{
    reveal(crate::run::dropping);
}

#[verifier::spinoff_prover]
#[verifier::rlimit(60)]
proof fn lemma_rolling(script: Seq<StepClass>, c: Control, e: Event)
    requires
        failing(c.phase),
        c.kind is Attach,
        crate::run::of_kind(c.kind, c.phase),
    ensures
        consistent(script, c, e, crate::run::rolling(c, e)),
{
    reveal(crate::run::rolling);
}

#[verifier::spinoff_prover]
#[verifier::rlimit(60)]
proof fn lemma_detaching(script: Seq<StepClass>, c: Control, e: Event)
    requires
        c.kind is Detach,
        crate::run::of_kind(c.kind, c.phase),
    ensures
        consistent(script, c, e, crate::run::detaching(c, e)),
{
    reveal(crate::run::detaching);
}

#[verifier::spinoff_prover]
#[verifier::rlimit(60)]
proof fn lemma_growing(script: Seq<StepClass>, c: Control, e: Event)
    requires
        c.kind is Grow,
        crate::run::of_kind(c.kind, c.phase),
        script.len() <= usize::MAX,
    ensures
        consistent(script, c, e, crate::run::growing(script, c, e)),
{
    reveal(crate::run::growing);
}

#[verifier::spinoff_prover]
#[verifier::rlimit(60)]
proof fn lemma_unbound(script: Seq<StepClass>, c: Control, e: Event)
    requires
        c.phase is UnboundStep || c.phase is UnboundUndo,
        c.kind is Unbound,
        crate::run::fits(script, c),
        script.len() <= usize::MAX,
    ensures
        consistent(script, c, e, crate::run::unbound(script, c, e)),
{
    reveal(crate::run::unbound);
    match c.phase {
        Phase::UnboundStep(i) => lemma_mount_below_class(script, i as int),
        Phase::UnboundUndo(j) => lemma_mount_below_class(script, j as int),
        _ => {},
    }
}

proof fn lemma_consistent(script: Seq<StepClass>, c: Control, e: Event)
    requires
        crate::run::fits(script, c),
        crate::run::of_kind(c.kind, c.phase),
        (c.phase == Phase::PriorBackend || c.phase == Phase::PriorObserve) ==> (
        c.kind matches Kind::Attach { prior, .. } && prior),
        c.phase != Phase::Stopped,
        script.len() <= usize::MAX,
    ensures
        consistent(script, c, e, crate::run::transition(script, c, e)),
{
    match c.kind {
        Kind::Attach { .. } => if c.phase == Phase::Ready {
            lemma_opening(script, c, e);
        } else if failing(c.phase) {
            lemma_rolling(script, c, e);
        } else if crate::run::working(c.phase) {
            if c.phase is Connect || c.phase is Waiting || c.phase is Verify || c.phase is Step {
                lemma_connecting(script, c, e);
            } else if c.phase is Preflight || c.phase is Intent || c.phase is Activate || c.phase is Activated {
                lemma_activating(script, c, e);
            } else if c.phase is ProofProbe || c.phase is Capture || c.phase is Publish || c.phase is Published {
                lemma_proving(script, c, e);
            } else if c.phase is DropBackend || c.phase is Dropping {
                lemma_dropping(script, c, e);
            } else {
                lemma_mounting(script, c, e);
            }
        } else {
            lemma_preparing(script, c, e);
        },
        Kind::Detach => if c.phase == Phase::Ready {
            lemma_opening(script, c, e);
        } else {
            lemma_detaching(script, c, e);
        },
        Kind::Grow => if c.phase == Phase::Ready {
            lemma_opening(script, c, e);
        } else {
            lemma_growing(script, c, e);
        },
        Kind::Unbound => if c.phase == Phase::Ready {
            lemma_opening(script, c, e);
        } else {
            lemma_unbound(script, c, e);
        },
    }
}

// ---------- the executor ----------

/// A run of a plan.
pub struct Executor {
    pub plan: Plan,
    pub script: Vec<StepClass>,
    pub control: Control,
    /// The record that an attach found.
    pub prior: Option<BoundDeviceRecord>,
    /// The record that the run acts on.
    pub record: Option<BoundDeviceRecord>,
    /// The metadata that an attach verified.
    pub verified: Option<VerifiedLvm>,
    /// Why the run failed.
    pub error: Option<ExecError>,
}

/// What an [`Executor`] knows.
pub struct Book {
    pub steps: Seq<crate::plan::Step>,
    pub volume: Seq<char>,
    pub attachment: Option<crate::plan::Identity>,
    pub prior: Option<crate::state::Record>,
    pub record: Option<crate::state::Record>,
    pub verified: Option<crate::lvm_preflight::Verified>,
}

/// The texts of an optional record.
pub open spec fn record_view(record: Option<BoundDeviceRecord>) -> Option<crate::state::Record> {
    match record {
        Some(r) => Some(r@),
        None => None,
    }
}

/// The model of optional metadata.
pub open spec fn verified_view(verified: Option<VerifiedLvm>) -> Option<
    crate::lvm_preflight::Verified,
> {
    match verified {
        Some(v) => Some(v@),
        None => None,
    }
}

impl View for Executor {
    type V = Book;

    open spec fn view(&self) -> Book {
        Book {
            steps: self.plan.view_steps(),
            volume: self.plan.volume@,
            attachment: identity_view(self.plan.attachment),
            prior: record_view(self.prior),
            record: record_view(self.record),
            verified: verified_view(self.verified),
        }
    }
}

/// The run found a record before it began.
pub open spec fn has_prior(kind: Kind) -> bool {
    kind matches Kind::Attach { prior, .. } && prior
}

impl Executor {
    /// What the run needs is there.
    pub open spec fn sound(&self) -> bool {
        &&& self.script@ == classes(self@.steps)
        &&& crate::run::fits(self.script@, self.control)
        &&& crate::run::of_kind(self.control.kind, self.control.phase)
        &&& has_prior(self.control.kind) ==> self.prior is Some
        &&& self.control.phase == Phase::PriorBackend || self.control.phase
            == Phase::PriorObserve ==> has_prior(self.control.kind)
        &&& on_record(self.control.phase) || self.control.kind is Detach || self.control.kind is Grow
            ==> self.record is Some
        &&& on_metadata(self.control) ==> self.verified is Some
        &&& aiming(self.control.phase) ==> self.record->Some_0.growth_target is Some
        &&& self.control.kind is Attach ==> connect_device(self@.steps, 0) is Some
            && disconnections_match(self@.steps)
        &&& self.control.kind is Attach && on_record(self.control.phase) ==> connect_device(
            self@.steps,
            0,
        ) == Some(self@.record->Some_0.device)
        &&& self.control.phase matches Phase::UnboundUndo(j) ==> self.script@[j as int]
            == StepClass::Mount
        &&& self.control.phase != Phase::Stopped ==> (self.error is Some <==> failing(
            self.control.phase,
        ))
    }
}

// ---------- the start ----------

/// Why a run is refused before it begins.
pub enum Refusal {
    /// The attachment is not what it must be.
    Identity(Seq<char>),
    /// The state could not be read.
    State(Seq<char>),
}

/// What the trusted state holds for a volume, if it is locked.
pub type Stored = Option<Result<Option<BoundDeviceRecord>, String>>;

/// The complaint that there is no record.
pub open spec fn no_record_text(volume: Seq<char>) -> Seq<char> {
    "no trusted attach record at "@ + (crate::plan::BOUND_DEVICE_RECORD_DIR@ + "/"@ + volume
        + ".nbd"@)
        + "; legacy device-only records are not imported, and a pinned device cannot bypass verification"@
}

/// Whether a plan may run, and as what: with a connection it is an attach, with
/// a disconnection a detach, with an enlargement a growth. All three need the
/// locked state; a detach and a growth need the record and must agree with it.
pub open spec fn admitted(plan: Plan, stored: Stored) -> Result<Kind, Refusal> {
    let steps = plan.view_steps();
    let attachment = identity_view(plan.attachment);
    if connect_device(steps, 0) is None && !disconnects(steps) && !grows(steps) {
        Ok(Kind::Unbound)
    } else {
        match stored {
            None => Err(Refusal::Identity("attach state lock is required"@)),
            Some(Err(m)) => Err(Refusal::State(m@)),
            Some(Ok(found)) => if connect_device(steps, 0) is Some {
                if !activations_match(steps, attachment) {
                    Err(Refusal::Identity("LVM activation does not match the attachment"@))
                } else if !disconnections_match(steps) {
                    Err(Refusal::Identity("NBD disconnection does not match the attachment"@))
                } else {
                    Ok(
                        Kind::Attach {
                            prior: found is Some,
                            allocate: crate::plan::steps_open(steps),
                        },
                    )
                }
            } else {
                match found {
                    None => Err(Refusal::Identity(no_record_text(plan.volume@))),
                    Some(record) => if disconnects(steps) {
                        if attachment == Some(record@.attachment) && detaches(steps, record@) {
                            Ok(Kind::Detach)
                        } else {
                            Err(
                                Refusal::Identity(
                                    "detach configuration does not match the trusted attach record"@,
                                ),
                            )
                        }
                    } else if grows_own(steps, record@) && growth_matches(attachment, record@) {
                        Ok(Kind::Grow)
                    } else {
                        Err(
                            Refusal::Identity(
                                "growth configuration does not match the trusted attach record"@,
                            ),
                        )
                    },
                }
            },
        }
    }
}

/// The record that the state holds.
pub open spec fn stored_record(stored: Stored) -> Option<crate::state::Record> {
    match stored {
        Some(Ok(found)) => record_view(found),
        _ => None,
    }
}

/// The error about the identity of an attachment.
pub open spec fn is_identity_error(e: ExecError, text: Seq<char>) -> bool {
    e matches ExecError::Step { step, message } && step@ == "nbd-identity"@ && message@ == text
}

/// The error of a refusal.
pub open spec fn refused(e: ExecError, refusal: Refusal) -> bool {
    match refusal {
        Refusal::Identity(text) => is_identity_error(e, text),
        Refusal::State(text) => e matches ExecError::Io(m) && m@ == text,
    }
}

fn no_record(volume: &str) -> (r: String)
    ensures
        r@ == no_record_text(volume@),
{
    let path = bound_device_record_path(volume);
    join3(
        "no trusted attach record at ",
        path.as_str(),
        "; legacy device-only records are not imported, and a pinned device cannot bypass verification",
    )
}

/// The kind of a run, with the record that it found and the one it acts on.
struct Admission {
    kind: Kind,
    prior: Option<BoundDeviceRecord>,
    record: Option<BoundDeviceRecord>,
}

fn admit_recorded(plan: &Plan, record: BoundDeviceRecord, detach: bool) -> (r: Result<
    Admission,
    ExecError,
>)
    requires
        connect_device(plan.view_steps(), 0) is None,
        detach == disconnects(plan.view_steps()),
        detach || grows(plan.view_steps()),
    ensures
        match r {
            Ok(a) => admitted(*plan, Some(Ok(Some(record)))) == Ok::<Kind, Refusal>(a.kind)
                && !(a.kind is Attach) && !(a.kind is Unbound) && a.prior is None && record_view(
                a.record,
            ) == Some(record@),
            Err(e) => admitted(*plan, Some(Ok(Some(record)))) is Err && refused(
                e,
                admitted(*plan, Some(Ok(Some(record))))->Err_0,
            ),
        },
{
    let same_attachment = match &plan.attachment {
        Some(a) => a.matches(&record.attachment),
        None => !detach,
    };
    if detach {
        if same_attachment && check_detach(&plan.steps, &record) {
            Ok(Admission { kind: Kind::Detach, prior: None, record: Some(record) })
        } else {
            Err(identity_error("detach configuration does not match the trusted attach record"))
        }
    } else if same_attachment && check_growth(&plan.steps, &record) {
        Ok(Admission { kind: Kind::Grow, prior: None, record: Some(record) })
    } else {
        Err(identity_error("growth configuration does not match the trusted attach record"))
    }
}

/// Whether a plan concerns an attachment, so that it may run only while the
/// attach lock is held.
pub fn needs_lock(plan: &Plan) -> (r: bool)
    ensures
        r == (connect_device(plan.view_steps(), 0) is Some || disconnects(plan.view_steps())
            || grows(plan.view_steps())),
{
    find_connect_device(&plan.steps).is_some() || has_disconnect(&plan.steps) || has_growth(
        &plan.steps,
    )
}

fn admission(plan: &Plan, stored: Stored) -> (r: Result<Admission, ExecError>)
    ensures
        match r {
            Ok(a) => admitted(*plan, stored) == Ok::<Kind, Refusal>(a.kind) && record_view(a.prior)
                == if a.kind is Attach {
                stored_record(stored)
            } else {
                None
            } && record_view(a.record) == if a.kind is Detach || a.kind is Grow {
                stored_record(stored)
            } else {
                None
            },
            Err(e) => admitted(*plan, stored) is Err && refused(e, admitted(*plan, stored)->Err_0),
        },
{
    let connects = find_connect_device(&plan.steps).is_some();
    let detach = has_disconnect(&plan.steps);
    if !needs_lock(plan) {
        return Ok(Admission { kind: Kind::Unbound, prior: None, record: None });
    }
    let found = match stored {
        None => return Err(identity_error("attach state lock is required")),
        Some(Err(m)) => return Err(ExecError::Io(m)),
        Some(Ok(found)) => found,
    };
    if connects {
        if !check_activations(&plan.steps, &plan.attachment) {
            return Err(identity_error("LVM activation does not match the attachment"));
        }
        if !check_disconnections(&plan.steps) {
            return Err(identity_error("NBD disconnection does not match the attachment"));
        }
        let kind = Kind::Attach { prior: found.is_some(), allocate: plan.needs_device_allocation() };
        return Ok(Admission { kind, prior: found, record: None });
    }
    match found {
        None => Err(identity_error(no_record(plan.volume.as_str()).as_str())),
        Some(record) => admit_recorded(plan, record, detach),
    }
}

impl Executor {
    /// Begin a run, if the plan and the stored record allow it.
    pub fn start(plan: &Plan, stored: Stored) -> (r: Result<Executor, ExecError>)
        ensures
            match r {
                Ok(x) => {
                    &&& x.sound()
                    &&& admitted(*plan, stored) == Ok::<Kind, Refusal>(x.control.kind)
                    &&& x.control == crate::run::begun(x.control.kind)
                    &&& x.error is None
                    &&& x@ == Book {
                        steps: plan.view_steps(),
                        volume: plan.volume@,
                        attachment: identity_view(plan.attachment),
                        prior: if x.control.kind is Attach {
                            stored_record(stored)
                        } else {
                            None
                        },
                        record: if x.control.kind is Detach || x.control.kind is Grow {
                            stored_record(stored)
                        } else {
                            None
                        },
                        verified: None,
                    }
                },
                Err(e) => admitted(*plan, stored) is Err && refused(
                    e,
                    admitted(*plan, stored)->Err_0,
                ),
            },
    {
        match admission(plan, stored) {
            Err(e) => Err(e),
            Ok(a) => {
                let script = classify(&plan.steps);
                Ok(
                    Executor {
                        plan: plan.clone(),
                        script,
                        control: begin(a.kind),
                        prior: a.prior,
                        record: a.record,
                        verified: None,
                        error: None,
                    },
                )
            },
        }
    }
}

// ---------- what an answer means ----------

/// The answer is one to what the run waits for.
pub open spec fn replies(phase: Phase, answer: Answer) -> bool {
    match phase {
        Phase::Ready => answer is Start,
        Phase::PriorBackend
        | Phase::TargetBackend
        | Phase::Verify(_)
        | Phase::ProofProbe(_)
        | Phase::Published(_)
        | Phase::MountBackend(_)
        | Phase::MountBackendAgain(_)
        | Phase::DropBackend(_)
        | Phase::RollBackend
        | Phase::DetachBackend
        | Phase::GrowBackend(_)
        | Phase::GrowBackendAgain(_) => answer is Backend,
        Phase::PriorObserve
        | Phase::TargetObserve
        | Phase::RollGone
        | Phase::RollObserve
        | Phase::DetachGone
        | Phase::DetachObserve
        | Phase::GrowObserve(_)
        | Phase::GrowObserveAgain(_) => answer is Observed,
        Phase::Allocate => answer is Allocated,
        Phase::Prepare => answer is Nonce,
        Phase::Preflight(_) => answer is Verified,
        Phase::Activate(_) => answer is Activated,
        Phase::Capture(_) => answer is Captured,
        Phase::MountFilesystem(_) => answer is Identified,
        Phase::MountDevice(_) => answer is Mounted,
        Phase::GrowSize(_) => answer is Size,
        Phase::Stopped => false,
        _ => answer is Ran,
    }
}

/// What a backend is to the record.
pub open spec fn judged(record: Option<crate::state::Record>, said: Result<Option<String>, String>) -> Backend {
    match said {
        Err(_) => Backend::Unreadable,
        Ok(None) => Backend::Absent,
        Ok(Some(id)) => if record is Some && record->Some_0.connection_id == id@ {
            Backend::Ours
        } else {
            Backend::Foreign
        },
    }
}

/// What a volume's size is to a growth.
pub open spec fn extent(kept: Option<u64>, size: u64, add: u64) -> Extent {
    match crate::exec::growth_target(kept, size, add) {
        None => Extent::Unknown,
        Some(target) => if kept is Some && target <= size {
            Extent::Reached
        } else {
            Extent::Short
        },
    }
}

fn compare(kept: Option<u64>, size: u64, add: u64) -> (r: Extent)
    ensures
        r == extent(kept, size, add),
{
    match choose_target(kept, size, add) {
        None => Extent::Unknown,
        Some(target) => if kept.is_some() && target <= size {
            Extent::Reached
        } else {
            Extent::Short
        },
    }
}

/// The size that the record keeps from an earlier attempt at a growth.
pub open spec fn kept_target(book: Book) -> Option<u64> {
    match book.record {
        Some(record) => record.growth_target,
        None => None,
    }
}

/// What is wrong with a filesystem that was probed before it is mounted.
pub open spec fn probe_complaint(book: Book, success: bool, stdout: Seq<u8>) -> Option<Seq<char>> {
    crate::exec::filesystem_complaint(pinned_uuid(book.steps, 0), success, stdout)
}

/// What is wrong with what was mounted.
pub open spec fn mount_complaint(book: Book, observed: MountObservation) -> Option<Seq<char>> {
    crate::verify::device_complaint(recorded_device(book), observed)
}

/// What an answer is to the run. An answer to something else is a failure.
pub open spec fn event_of(book: Book, phase: Phase, answer: Answer) -> Event {
    if !replies(phase, answer) {
        Event::Done(false)
    } else {
        match answer {
            Answer::Start => Event::Start,
            Answer::Backend(said) => Event::Backend(judged(book.record, said)),
            Answer::Observed(Ok(o)) => Event::Observed(Some(o)),
            Answer::Observed(Err(_)) => Event::Observed(None),
            Answer::Ran(r) => Event::Done(r is Ok),
            Answer::Allocated(r) => Event::Done(r is Ok),
            Answer::Nonce(r) => Event::Done(r is Ok && book.attachment is Some),
            Answer::Verified(r) => Event::Done(r is Ok),
            Answer::Activated { attempted, result } => Event::Activated {
                attempted,
                ok: result is Ok,
            },
            Answer::Captured(Ok(Some(_))) => Event::Captured(Capture::Proof),
            Answer::Captured(Ok(None)) => Event::Captured(Capture::Nothing),
            Answer::Captured(Err(_)) => Event::Captured(Capture::Failed),
            Answer::Identified(Ok(probe)) => Event::Done(
                probe_complaint(book, probe.0, probe.1@) is None,
            ),
            Answer::Identified(Err(_)) => Event::Done(false),
            Answer::Mounted(Ok(observed)) => Event::Done(mount_complaint(book, observed) is None),
            Answer::Mounted(Err(_)) => Event::Done(false),
            Answer::Size(Ok(size)) => Event::Sized(
                extent(kept_target(book), size, increase(book.steps, phase)),
            ),
            Answer::Size(Err(_)) => Event::Sized(Extent::Unknown),
        }
    }
}

/// The record that an attach prepares: the nonce makes its connection unique.
pub open spec fn prepared(book: Book, nonce: Seq<char>) -> crate::state::Record {
    crate::state::Record {
        version: 1,
        volume: book.volume,
        attachment: book.attachment->Some_0,
        device: connect_device(book.steps, 0)->Some_0,
        connection_id: "maki-"@ + crate::text::trimmed(nonce),
        recovery: None,
        recovery_intent: None,
        growth_target: None,
    }
}

/// What the executor knows after an answer.
pub open spec fn book_after(book: Book, phase: Phase, answer: Answer) -> Book {
    if !replies(phase, answer) {
        book
    } else {
        match answer {
            Answer::Allocated(Ok(device)) => Book {
                steps: crate::plan::steps_bound(book.steps, device@),
                ..book
            },
            Answer::Nonce(Ok(nonce)) => if book.attachment is Some {
                Book { record: Some(prepared(book, nonce@)), ..book }
            } else {
                book
            },
            Answer::Verified(Ok(v)) => Book {
                verified: Some(v@),
                record: Some(
                    crate::state::Record {
                        recovery_intent: Some(v@),
                        ..book.record->Some_0
                    },
                ),
                ..book
            },
            Answer::Captured(Ok(Some(proof))) => Book {
                record: Some(
                    crate::state::Record {
                        recovery: Some(
                            (crate::recover::nodes_view(proof.nodes@), proof.mount_permitted),
                        ),
                        recovery_intent: None,
                        ..book.record->Some_0
                    },
                ),
                ..book
            },
            Answer::Size(Ok(size)) => match crate::exec::growth_target(
                kept_target(book),
                size,
                increase(book.steps, phase),
            ) {
                Some(target) => Book {
                    record: Some(
                        crate::state::Record {
                            growth_target: Some(target),
                            ..book.record->Some_0
                        },
                    ),
                    ..book
                },
                None => book,
            },
            _ => book,
        }
    }
}

/// The failure that an answer reports.
pub open spec fn reports(book: Book, phase: Phase, answer: Answer, e: ExecError) -> bool {
    if !replies(phase, answer) {
        is_identity_error(e, "unexpected answer"@)
    } else {
        match answer {
            Answer::Backend(Err(m)) => e == ExecError::Io(m),
            Answer::Observed(Err(m)) => e == ExecError::Io(m),
            Answer::Ran(Err(x)) => e == x,
            Answer::Allocated(Err(x)) => e == x,
            Answer::Nonce(Err(m)) => e == ExecError::Io(m),
            Answer::Nonce(Ok(_)) => is_identity_error(
                e,
                "missing attachment configuration identity"@,
            ),
            Answer::Verified(Err(x)) => e == x,
            Answer::Activated { result: Err(x), .. } => e == x,
            Answer::Captured(Err(m)) => e == ExecError::Io(m),
            Answer::Identified(Err(m)) => e == ExecError::Io(m),
            Answer::Identified(Ok(probe)) => is_identity_error(
                e,
                match probe_complaint(book, probe.0, probe.1@) {
                    Some(text) => text,
                    None => "unexpected answer"@,
                },
            ),
            Answer::Mounted(Err(m)) => e == ExecError::Io(m),
            Answer::Mounted(Ok(observed)) => match mount_complaint(book, observed) {
                Some(text) => e matches ExecError::Verify(m) && m.0@ == text,
                None => is_identity_error(e, "unexpected answer"@),
            },
            Answer::Size(Err(m)) => e == ExecError::Io(m),
            Answer::Size(Ok(_)) => is_identity_error(
                e,
                "the volume cannot grow by that many bytes"@,
            ),
            _ => is_identity_error(e, "unexpected answer"@),
        }
    }
}

/// What a fault is called, for the recorded device.
pub open spec fn fault_text(fault: Fault, device: Seq<char>) -> Seq<char> {
    match fault {
        Fault::Reported => Seq::empty(),
        Fault::StillConnected =>
        "recorded device is still connected; detach or verify its stale state before attaching"@,
        Fault::PriorLive =>
        "recorded attachment still has live resources; detach or recover it before attaching"@,
        Fault::AlreadyConnected => "requested NBD device is already connected"@,
        Fault::TargetLive =>
        "resources of this attachment are live without a record; refusing to adopt them"@,
        Fault::NotOurs => device
            + " no longer has the recorded attachment identity; refusing to disconnect"@,
        Fault::InUse => "NBD device has users outside the recorded attachment"@,
        Fault::BackendLost =>
        "NBD backend is gone but resources of the recorded attachment are live"@,
        Fault::NotMounted => "recorded attachment is not mounted and active"@,
        Fault::StillThere => "a layer is still live after it was taken down"@,
        Fault::UnboundActivation => "LVM activation requires a recorded attachment"@,
        Fault::NotActivated => "a mount requires a verified volume group"@,
        Fault::NotVerified => "a sentinel requires a verified mount"@,
    }
}

/// The device that the record names.
pub open spec fn recorded_device(book: Book) -> Seq<char> {
    match book.record {
        Some(r) => r.device,
        None => Seq::empty(),
    }
}

/// The error of a fault.
pub open spec fn blamed(book: Book, phase: Phase, answer: Answer, fault: Fault, e: ExecError) -> bool {
    if fault == Fault::Reported {
        reports(book, phase, answer, e)
    } else {
        is_identity_error(e, fault_text(fault, recorded_device(book)))
    }
}

fn is_reply(phase: Phase, answer: &Answer) -> (r: bool)
    ensures
        r == replies(phase, *answer),
{
    match phase {
        Phase::Ready => matches!(answer, Answer::Start),
        Phase::PriorBackend
        | Phase::TargetBackend
        | Phase::Verify(_)
        | Phase::ProofProbe(_)
        | Phase::Published(_)
        | Phase::MountBackend(_)
        | Phase::MountBackendAgain(_)
        | Phase::DropBackend(_)
        | Phase::RollBackend
        | Phase::DetachBackend
        | Phase::GrowBackend(_)
        | Phase::GrowBackendAgain(_) => matches!(answer, Answer::Backend(_)),
        Phase::PriorObserve
        | Phase::TargetObserve
        | Phase::RollGone
        | Phase::RollObserve
        | Phase::DetachGone
        | Phase::DetachObserve
        | Phase::GrowObserve(_)
        | Phase::GrowObserveAgain(_) => matches!(answer, Answer::Observed(_)),
        Phase::Allocate => matches!(answer, Answer::Allocated(_)),
        Phase::Prepare => matches!(answer, Answer::Nonce(_)),
        Phase::Preflight(_) => matches!(answer, Answer::Verified(_)),
        Phase::Activate(_) => matches!(answer, Answer::Activated { .. }),
        Phase::Capture(_) => matches!(answer, Answer::Captured(_)),
        Phase::MountFilesystem(_) => matches!(answer, Answer::Identified(_)),
        Phase::MountDevice(_) => matches!(answer, Answer::Mounted(_)),
        Phase::GrowSize(_) => matches!(answer, Answer::Size(_)),
        Phase::Stopped => false,
        _ => matches!(answer, Answer::Ran(_)),
    }
}

fn name_fault(fault: Fault, device: &str) -> (r: String)
    ensures
        r@ == fault_text(fault, device@),
{
    match fault {
        Fault::Reported => String::new(),
        Fault::StillConnected => "recorded device is still connected; detach or verify its stale state before attaching".to_owned(),
        Fault::PriorLive => "recorded attachment still has live resources; detach or recover it before attaching".to_owned(),
        Fault::AlreadyConnected => "requested NBD device is already connected".to_owned(),
        Fault::TargetLive => "resources of this attachment are live without a record; refusing to adopt them".to_owned(),
        Fault::NotOurs => join2(
            device,
            " no longer has the recorded attachment identity; refusing to disconnect",
        ),
        Fault::InUse => "NBD device has users outside the recorded attachment".to_owned(),
        Fault::BackendLost => "NBD backend is gone but resources of the recorded attachment are live".to_owned(),
        Fault::NotMounted => "recorded attachment is not mounted and active".to_owned(),
        Fault::StillThere => "a layer is still live after it was taken down".to_owned(),
        Fault::UnboundActivation => "LVM activation requires a recorded attachment".to_owned(),
        Fault::NotActivated => "a mount requires a verified volume group".to_owned(),
        Fault::NotVerified => "a sentinel requires a verified mount".to_owned(),
    }
}

proof fn lemma_bound_classes(steps: Seq<crate::plan::Step>, device: Seq<char>)
    ensures
        classes(crate::plan::steps_bound(steps, device)) == classes(steps),
{
    let bound = crate::plan::steps_bound(steps, device);
    assert forall|i: int| 0 <= i < steps.len() implies #[trigger] classes(bound)[i] == classes(
        steps,
    )[i] by {
        assert(bound[i] == crate::plan::step_bound(steps[i], device));
    }
    assert(classes(bound) =~= classes(steps));
}

proof fn lemma_bound_connect(steps: Seq<crate::plan::Step>, device: Seq<char>, i: int)
    requires
        0 <= i,
    ensures
        connect_device(crate::plan::steps_bound(steps, device), i) == match connect_device(
            steps,
            i,
        ) {
            Some(d) => Some(
                if d == AUTO_NBD_DEVICE@ {
                    device
                } else {
                    d
                },
            ),
            None => None,
        },
    decreases steps.len() - i,
{
    let bound = crate::plan::steps_bound(steps, device);
    if i < steps.len() {
        assert(bound[i] == crate::plan::step_bound(steps[i], device));
        lemma_bound_connect(steps, device, i + 1);
    }
}

proof fn lemma_bound_disconnections(steps: Seq<crate::plan::Step>, device: Seq<char>)
    requires
        disconnections_match(steps),
    ensures
        disconnections_match(crate::plan::steps_bound(steps, device)),
{
    let bound = crate::plan::steps_bound(steps, device);
    lemma_bound_connect(steps, device, 0);
    assert forall|i: int| 0 <= i < bound.len() implies (#[trigger] bound[i] matches crate::plan::Step::NbdDisconnect {
        device: d,
    } ==> connect_device(bound, 0) == Some(d)) by {
        assert(bound[i] == crate::plan::step_bound(steps[i], device));
    }
}

impl Executor {
    fn kept_size(&self) -> (r: Option<u64>)
        ensures
            r == kept_target(self@),
    {
        match &self.record {
            Some(record) => record.growth_target,
            None => None,
        }
    }

    fn own_device(&self) -> (r: &str)
        ensures
            r@ == recorded_device(self@),
    {
        match &self.record {
            Some(record) => record.device.as_str(),
            None => {
                proof {
                    reveal_strlit("");
                    assert(""@ =~= Seq::<char>::empty());
                }
                ""
            },
        }
    }

    fn wanted_increase(&self) -> (r: u64)
        requires
            self.script@ == classes(self@.steps),
            crate::run::fits(self.script@, self.control),
        ensures
            r == increase(self@.steps, self.control.phase),
    {
        match self.control.phase {
            Phase::GrowSize(i) => {
                assert(self@.steps[i as int] == self.plan.steps@[i as int]@);
                match &self.plan.steps[i] {
                    PlannedStep::LvExtend { add_bytes, .. } => *add_bytes,
                    _ => 0,
                }
            },
            _ => 0,
        }
    }

    fn judge(&self, answer: &Answer) -> (r: Event)
        requires
            self.script@ == classes(self@.steps),
            crate::run::fits(self.script@, self.control),
        ensures
            r == event_of(self@, self.control.phase, *answer),
    {
        if !is_reply(self.control.phase, answer) {
            return Event::Done(false);
        }
        match answer {
            Answer::Start => Event::Start,
            Answer::Backend(Err(_)) => Event::Backend(Backend::Unreadable),
            Answer::Backend(Ok(None)) => Event::Backend(Backend::Absent),
            Answer::Backend(Ok(Some(id))) => {
                let ours = match &self.record {
                    Some(r) => same(r.connection_id.as_str(), id.as_str()),
                    None => false,
                };
                if ours {
                    Event::Backend(Backend::Ours)
                } else {
                    Event::Backend(Backend::Foreign)
                }
            },
            Answer::Observed(Ok(o)) => Event::Observed(Some(*o)),
            Answer::Observed(Err(_)) => Event::Observed(None),
            Answer::Ran(r) => Event::Done(r.is_ok()),
            Answer::Allocated(r) => Event::Done(r.is_ok()),
            Answer::Nonce(r) => Event::Done(r.is_ok() && self.plan.attachment.is_some()),
            Answer::Verified(r) => Event::Done(r.is_ok()),
            Answer::Activated { attempted, result } => Event::Activated {
                attempted: *attempted,
                ok: result.is_ok(),
            },
            Answer::Captured(Ok(Some(_))) => Event::Captured(Capture::Proof),
            Answer::Captured(Ok(None)) => Event::Captured(Capture::Nothing),
            Answer::Captured(Err(_)) => Event::Captured(Capture::Failed),
            Answer::Identified(Ok(probe)) => Event::Done(
                verify_filesystem_probe(
                    find_pinned_uuid(&self.plan.steps),
                    probe.0,
                    copy_bytes(probe.1.as_slice()),
                ).is_ok(),
            ),
            Answer::Identified(Err(_)) => Event::Done(false),
            Answer::Mounted(Ok(observed)) => Event::Done(
                verify_mount_device(self.own_device(), observed).is_ok(),
            ),
            Answer::Mounted(Err(_)) => Event::Done(false),
            Answer::Size(Ok(size)) => Event::Sized(
                compare(self.kept_size(), *size, self.wanted_increase()),
            ),
            Answer::Size(Err(_)) => Event::Sized(Extent::Unknown),
        }
    }

    /// Prepare the record of an attach.
    fn prepare(&mut self, nonce: &str)
        requires
            connect_device(old(self)@.steps, 0) is Some,
            old(self)@.attachment is Some,
        ensures
            final(self)@ == (Book { record: Some(prepared(old(self)@, nonce@)), ..old(self)@ }),
            final(self).record is Some,
            final(self).script == old(self).script,
            final(self).control == old(self).control,
            final(self).plan == old(self).plan,
            final(self).prior == old(self).prior,
            final(self).verified == old(self).verified,
            final(self).error == old(self).error,
    {
        let device = match find_connect_device(&self.plan.steps) {
            Some(d) => d.to_owned(),
            None => String::new(),
        };
        match &self.plan.attachment {
            Some(a) => {
                let record = BoundDeviceRecord {
                    version: 1,
                    volume: self.plan.volume.clone(),
                    attachment: a.clone(),
                    device,
                    connection_id: join2("maki-", trim(nonce)),
                    recovery: None,
                    recovery_intent: None,
                    growth_target: None,
                };
                self.record = Some(record);
            },
            None => {},
        }
    }

    /// Take in what an answer brought; what it reports as a failure comes back.
    fn absorb(&mut self, answer: Answer) -> (r: ExecError)
        requires
            old(self).sound(),
        ensures
            final(self)@ == book_after(old(self)@, old(self).control.phase, answer),
            reports(old(self)@, old(self).control.phase, answer, r),
            final(self).script@ == classes(final(self)@.steps),
            final(self).script == old(self).script,
            final(self).control == old(self).control,
            final(self).error == old(self).error,
            old(self).prior is Some ==> final(self).prior is Some,
            old(self).record is Some ==> final(self).record is Some,
            old(self).verified is Some ==> final(self).verified is Some,
            old(self).control.kind is Attach ==> connect_device(final(self)@.steps, 0) is Some
                && disconnections_match(final(self)@.steps),
            old(self).control.kind is Attach && on_record(old(self).control.phase)
                ==> connect_device(final(self)@.steps, 0) == Some(
                final(self)@.record->Some_0.device,
            ),
            old(self).control.phase == Phase::Prepare && event_of(
                old(self)@,
                old(self).control.phase,
                answer,
            ) == Event::Done(true) ==> final(self).record is Some && connect_device(
                final(self)@.steps,
                0,
            ) == Some(final(self)@.record->Some_0.device),
            old(self).control.phase is Preflight && event_of(
                old(self)@,
                old(self).control.phase,
                answer,
            ) == Event::Done(true) ==> final(self).verified is Some,
            aiming(old(self).control.phase) ==> final(self).record->Some_0.growth_target is Some,
            old(self).control.phase is GrowSize && event_of(
                old(self)@,
                old(self).control.phase,
                answer,
            ) == Event::Sized(Extent::Short) ==> final(self).record->Some_0.growth_target is Some,
    {
        if !is_reply(self.control.phase, &answer) {
            return identity_error("unexpected answer");
        }
        match answer {
            Answer::Backend(Err(m)) => ExecError::Io(m),
            Answer::Observed(Err(m)) => ExecError::Io(m),
            Answer::Ran(Err(e)) => e,
            Answer::Allocated(Err(e)) => e,
            Answer::Allocated(Ok(device)) => {
                proof {
                    lemma_bound_classes(self@.steps, device@);
                    lemma_bound_connect(self@.steps, device@, 0);
                    if self.control.kind is Attach {
                        lemma_bound_disconnections(self@.steps, device@);
                    }
                }
                self.plan.bind_device(device.as_str());
                identity_error("unexpected answer")
            },
            Answer::Nonce(Err(m)) => ExecError::Io(m),
            Answer::Nonce(Ok(nonce)) => {
                if self.plan.attachment.is_some() {
                    self.prepare(nonce.as_str());
                }
                identity_error("missing attachment configuration identity")
            },
            Answer::Verified(Err(e)) => e,
            Answer::Verified(Ok(verified)) => {
                match &mut self.record {
                    Some(r) => {
                        r.recovery_intent = Some(RecoveryIntent::new(&verified));
                    },
                    None => {},
                }
                self.verified = Some(verified);
                identity_error("unexpected answer")
            },
            Answer::Activated { result: Err(e), .. } => e,
            Answer::Captured(Err(m)) => ExecError::Io(m),
            Answer::Captured(Ok(Some(proof))) => {
                match &mut self.record {
                    Some(r) => {
                        r.recovery = Some(proof);
                        r.recovery_intent = None;
                    },
                    None => {},
                }
                identity_error("unexpected answer")
            },
            Answer::Identified(Err(m)) => ExecError::Io(m),
            Answer::Identified(Ok(probe)) => match verify_filesystem_probe(
                find_pinned_uuid(&self.plan.steps),
                probe.0,
                probe.1,
            ) {
                Ok(()) => identity_error("unexpected answer"),
                Err(e) => e,
            },
            Answer::Mounted(Err(m)) => ExecError::Io(m),
            Answer::Mounted(Ok(observed)) => match verify_mount_device(
                self.own_device(),
                &observed,
            ) {
                Ok(()) => identity_error("unexpected answer"),
                Err(e) => ExecError::Verify(e),
            },
            Answer::Size(Err(m)) => ExecError::Io(m),
            Answer::Size(Ok(size)) => {
                let target = choose_target(self.kept_size(), size, self.wanted_increase());
                match (target, &mut self.record) {
                    (Some(bytes), Some(r)) => {
                        r.growth_target = Some(bytes);
                    },
                    _ => {},
                }
                identity_error("the volume cannot grow by that many bytes")
            },
            _ => identity_error("unexpected answer"),
        }
    }
}

// ---------- permission to act on a group ----------

/// The complaint about the backend of a record: it must be the recorded one.
pub open spec fn connection_error(
    record: crate::state::Record,
    said: Result<Option<String>, String>,
    e: ExecError,
) -> bool {
    match said {
        Err(m) => e == ExecError::Io(m),
        Ok(_) => is_identity_error(e, fault_text(Fault::NotOurs, record.device)),
    }
}

/// Hold what the kernel shows as the backend to the record.
pub fn verify_connection(record: &BoundDeviceRecord, said: Result<Option<String>, String>) -> (r:
    Result<(), ExecError>)
    ensures
        match r {
            Ok(()) => judged(Some(record@), said) == Backend::Ours,
            Err(e) => judged(Some(record@), said) != Backend::Ours && connection_error(
                record@,
                said,
                e,
            ),
        },
{
    match said {
        Err(m) => Err(ExecError::Io(m)),
        Ok(shown) => {
            let ours = match &shown {
                Some(id) => same(record.connection_id.as_str(), id.as_str()),
                None => false,
            };
            if ours {
                Ok(())
            } else {
                Err(identity_error(name_fault(Fault::NotOurs, record.device.as_str()).as_str()))
            }
        },
    }
}

/// Whether a rollback may deactivate the verified group: every device node must
/// still lead to the verified device, and the backend must be the recorded one.
pub fn authorize_deactivation(
    record: &BoundDeviceRecord,
    verified: &VerifiedLvm,
    nodes: &Vec<Option<(u32, u32)>>,
    said: Result<Option<String>, String>,
) -> (r: Result<(), ExecError>)
    requires
        nodes@.len() == verified.devices@.len(),
    ensures
        match r {
            Ok(()) => crate::lvm_preflight::nodes_kept(verified@.devices, nodes@) && judged(
                Some(record@),
                said,
            ) == Backend::Ours,
            Err(e) => if !crate::lvm_preflight::nodes_kept(verified@.devices, nodes@) {
                is_identity_error(e, "LVM candidate was replaced before rollback"@)
            } else {
                judged(Some(record@), said) != Backend::Ours && connection_error(record@, said, e)
            },
        },
{
    if !check_nodes(verified, nodes) {
        return Err(identity_error("LVM candidate was replaced before rollback"));
    }
    verify_connection(record, said)
}

/// Whether a recovery may deactivate the group that an attach had verified: the
/// devices and the mappings must be unchanged, every device node must lead to
/// the verified device, and there must be no backend.
pub fn authorize_recovery_deactivation(
    record: &BoundDeviceRecord,
    verified: &VerifiedLvm,
    tree: &BlockTree,
    nodes: &Vec<Option<(u32, u32)>>,
    said: Result<Option<String>, String>,
) -> (r: Result<(), ExecError>)
    requires
        nodes@.len() == verified.devices@.len(),
    ensures
        ({
            let mapped = crate::lvm_preflight::recovery_verified(
                *record,
                verified@,
                tree.entries@,
                tree.odd_names,
                true,
            );
            match r {
                Ok(()) => mapped is Ok && crate::lvm_preflight::nodes_kept(
                    verified@.devices,
                    nodes@,
                ) && judged(Some(record@), said) == Backend::Absent,
                Err(e) => if mapped is Err {
                    e matches ExecError::Io(m) && m@ == crate::sysfs::complaint_text(
                        mapped->Err_0,
                    )
                } else if !crate::lvm_preflight::nodes_kept(verified@.devices, nodes@) {
                    is_identity_error(
                        e,
                        "LVM recovery candidate was replaced before deactivation"@,
                    )
                } else {
                    match said {
                        Err(m) => e == ExecError::Io(m),
                        Ok(shown) => shown is Some && is_identity_error(
                            e,
                            "NBD backend reappeared before recovery deactivation"@,
                        ),
                    }
                },
            }
        }),
{
    match verify_recovery_mapping(record, verified, tree) {
        Ok(()) => {},
        Err(e) => return Err(ExecError::Io(e.to_string())),
    }
    if !check_nodes(verified, nodes) {
        return Err(identity_error("LVM recovery candidate was replaced before deactivation"));
    }
    match said {
        Err(m) => Err(ExecError::Io(m)),
        Ok(None) => Ok(()),
        Ok(Some(_)) => Err(identity_error("NBD backend reappeared before recovery deactivation")),
    }
}

/// What a change of a volume group's mappings was for.
#[derive(Debug, Clone, Copy, PartialEq, Eq, Structural)]
pub enum GroupChange {
    Activation,
    Rollback,
    Recovery,
}

/// What is said when such a change failed.
pub open spec fn change_complaint(change: GroupChange) -> Seq<char> {
    match change {
        GroupChange::Activation => "scoped LVM activation failed"@,
        GroupChange::Rollback => "scoped LVM rollback failed"@,
        GroupChange::Recovery => "scoped LVM recovery deactivation failed"@,
    }
}

/// What became of a command that changed a volume group's mappings.
pub fn judge_group_change(change: GroupChange, success: bool) -> (r: Result<(), ExecError>)
    ensures
        match r {
            Ok(()) => success,
            Err(e) => !success && is_identity_error(e, change_complaint(change)),
        },
{
    if success {
        return Ok(());
    }
    Err(
        match change {
            GroupChange::Activation => identity_error("scoped LVM activation failed"),
            GroupChange::Rollback => identity_error("scoped LVM rollback failed"),
            GroupChange::Recovery => identity_error("scoped LVM recovery deactivation failed"),
        },
    )
}

// ---------- what an order means ----------

/// The identifier that a step is run with.
pub open spec fn identifier_of(book: Book, i: int) -> Option<Seq<char>> {
    if book.steps[i] is NbdConnect && book.record is Some {
        Some(book.record->Some_0.connection_id)
    } else {
        None
    }
}

/// The action of taking down a layer. A rollback deactivates exactly the group
/// that the attach verified, a detach the recorded one.
pub open spec fn taken_down(book: Book, kind: Kind, layer: Layer) -> Deed {
    let record = book.record->Some_0;
    match layer {
        Layer::Mount => Deed::Run {
            step: crate::plan::Step::Umount { mountpoint: record.attachment.mountpoint },
            identifier: None,
        },
        Layer::Group => if kind is Attach {
            Deed::Deactivate { record, verified: book.verified->Some_0 }
        } else {
            Deed::Run {
                step: crate::plan::Step::LvmDeactivate { vg_name: record.attachment.vg_name },
                identifier: None,
            }
        },
        Layer::Device => Deed::Run {
            step: crate::plan::Step::NbdDisconnect { device: record.device },
            identifier: None,
        },
    }
}

/// The action of an order.
pub open spec fn realised(book: Book, kind: Kind, order: Order) -> Deed {
    let record = book.record->Some_0;
    let verified = book.verified->Some_0;
    match order {
        Order::ProbePrior => Deed::Probe(book.prior->Some_0.device),
        Order::ObservePrior => Deed::Observe { record: book.prior->Some_0, allow_missing: false },
        Order::Modprobe => Deed::Run { step: crate::plan::Step::ModprobeNbd, identifier: None },
        Order::Allocate => Deed::Allocate,
        Order::ProbeTarget => Deed::Probe(connect_device(book.steps, 0)->Some_0),
        Order::Prepare => Deed::DrawNonce,
        Order::ObserveTarget => Deed::Observe { record, allow_missing: false },
        Order::WriteRecord
        | Order::PersistIntent
        | Order::PersistProof
        | Order::PersistTarget => Deed::WriteRecord(record),
        Order::ClearTarget => Deed::WriteRecord(
            crate::state::Record { growth_target: None, ..record },
        ),
        Order::VerifyFilesystem(i) => Deed::Identify { device: mount_of(book.steps[i as int]).0 },
        Order::VerifyDevice(i) => Deed::ObserveMount {
            mountpoint: mount_of(book.steps[i as int]).1,
            device: record.device,
        },
        Order::ReadSize(i) => Deed::ReadSize(book.steps[i as int]),
        Order::Extend(i) => Deed::Extend {
            step: book.steps[i as int],
            target: record.growth_target->Some_0,
        },
        Order::Run(i) => Deed::Run {
            step: book.steps[i as int],
            identifier: identifier_of(book, i as int),
        },
        Order::WaitReady(i) => Deed::WaitReady { step: book.steps[i as int], device: record.device },
        Order::Probe => Deed::Probe(record.device),
        Order::Observe { allow_missing } => Deed::Observe { record, allow_missing },
        Order::Preflight => Deed::Preflight(record),
        Order::Activate => Deed::Activate { record, verified },
        Order::VerifyActivated => Deed::VerifyActivated { record, verified },
        Order::Capture => Deed::Capture(record),
        Order::VerifyRollback => Deed::VerifyRollback { record, verified },
        Order::TakeDown(layer) => taken_down(book, kind, layer),
        Order::Undo(j) => Deed::Run {
            step: crate::plan::undo(book.steps[j as int])->Some_0,
            identifier: None,
        },
        Order::Retire => Deed::Retire(book.volume),
        Order::Stop(end) => Deed::Stop(end),
    }
}

fn plain(step: PlannedStep) -> (r: Action)
    ensures
        r@ == (Deed::Run { step: step@, identifier: None }),
{
    Action::Run { step, identifier: None }
}

impl Executor {
    fn act_on_record(&self, record: &BoundDeviceRecord, order: Order) -> (r: Action)
        requires
            self.sound(),
            self@.record == Some(record@),
            self.control.phase != Phase::Stopped,
            self.control.phase != Phase::Ready,
            order == awaited(self.control),
            !(order is Run),
            on_record(self.control.phase) || self.control.kind is Detach
                || self.control.kind is Grow,
        ensures
            r@ == realised(self@, self.control.kind, order),
    {
        match order {
            Order::ObserveTarget => Action::Observe {
                record: record.clone(),
                allow_missing: false,
            },
            Order::Observe { allow_missing } => Action::Observe {
                record: record.clone(),
                allow_missing,
            },
            Order::WriteRecord
            | Order::PersistIntent
            | Order::PersistProof
            | Order::PersistTarget => Action::WriteRecord(record.clone()),
            Order::ClearTarget => {
                let mut cleared = record.clone();
                cleared.growth_target = None;
                Action::WriteRecord(cleared)
            },
            Order::VerifyFilesystem(i) => {
                assert(self@.steps[i as int] == self.plan.steps@[i as int]@);
                let (device, _) = mount_parts(&self.plan.steps[i]);
                Action::Identify { device }
            },
            Order::VerifyDevice(i) => {
                assert(self@.steps[i as int] == self.plan.steps@[i as int]@);
                let (_, mountpoint) = mount_parts(&self.plan.steps[i]);
                Action::ObserveMount { mountpoint, device: record.device.clone() }
            },
            Order::ReadSize(i) => {
                assert(self@.steps[i as int] == self.plan.steps@[i as int]@);
                Action::ReadSize(self.plan.steps[i].clone())
            },
            Order::Extend(i) => {
                assert(self@.steps[i as int] == self.plan.steps@[i as int]@);
                Action::Extend {
                    step: self.plan.steps[i].clone(),
                    target: record.growth_target.unwrap(),
                }
            },
            Order::WaitReady(i) => {
                assert(self@.steps[i as int] == self.plan.steps@[i as int]@);
                Action::WaitReady { step: self.plan.steps[i].clone(), device: record.device.clone() }
            },
            Order::Preflight => Action::Preflight(record.clone()),
            Order::Capture => Action::Capture(record.clone()),
            Order::TakeDown(Layer::Mount) => plain(
                PlannedStep::Umount { mountpoint: record.attachment.mountpoint.clone() },
            ),
            Order::TakeDown(Layer::Device) => plain(
                PlannedStep::NbdDisconnect { device: record.device.clone() },
            ),
            Order::TakeDown(Layer::Group) => match (&self.verified, self.control.kind) {
                (Some(verified), Kind::Attach { .. }) => Action::Deactivate {
                    record: record.clone(),
                    verified: verified.clone(),
                },
                _ => plain(
                    PlannedStep::LvmDeactivate { vg_name: record.attachment.vg_name.clone() },
                ),
            },
            Order::Retire => Action::Retire(self.plan.volume.clone()),
            Order::Activate | Order::VerifyActivated | Order::VerifyRollback => {
                assert(on_metadata(self.control));
                self.act_on_metadata(record, self.verified.as_ref().unwrap(), order)
            },
            _ => Action::Probe(record.device.clone()),
        }
    }

    fn act_on_metadata(&self, record: &BoundDeviceRecord, verified: &VerifiedLvm, order: Order) -> (r:
        Action)
        requires
            self@.record == Some(record@),
            self@.verified == Some(verified@),
            order == Order::Activate || order == Order::VerifyActivated || order
                == Order::VerifyRollback,
        ensures
            r@ == realised(self@, self.control.kind, order),
    {
        match order {
            Order::Activate => Action::Activate {
                record: record.clone(),
                verified: verified.clone(),
            },
            Order::VerifyActivated => Action::VerifyActivated {
                record: record.clone(),
                verified: verified.clone(),
            },
            _ => Action::VerifyRollback { record: record.clone(), verified: verified.clone() },
        }
    }

    fn act_on_prior(&self, record: &BoundDeviceRecord, order: Order) -> (r: Action)
        requires
            self@.prior == Some(record@),
            order == Order::ProbePrior || order == Order::ObservePrior,
        ensures
            r@ == realised(self@, self.control.kind, order),
    {
        match order {
            Order::ProbePrior => Action::Probe(record.device.clone()),
            _ => Action::Observe { record: record.clone(), allow_missing: false },
        }
    }

    fn realise(&self, order: Order) -> (r: Action)
        requires
            self.sound(),
            self.control.phase != Phase::Stopped,
            self.control.phase != Phase::Ready,
            order == awaited(self.control),
        ensures
            r@ == realised(self@, self.control.kind, order),
    {
        match order {
            Order::ProbePrior | Order::ObservePrior => self.act_on_prior(
                self.prior.as_ref().unwrap(),
                order,
            ),
            Order::Modprobe => plain(PlannedStep::ModprobeNbd),
            Order::Allocate => Action::Allocate,
            Order::ProbeTarget => Action::Probe(
                find_connect_device(&self.plan.steps).unwrap().to_owned(),
            ),
            Order::Prepare => Action::DrawNonce,
            Order::Run(i) => {
                let step = self.plan.steps[i].clone();
                assert(self@.steps[i as int] == step@);
                let identifier = match (&step, &self.record) {
                    (PlannedStep::NbdConnect { .. }, Some(r)) => Some(r.connection_id.clone()),
                    _ => None,
                };
                Action::Run { step, identifier }
            },
            Order::Undo(j) => {
                assert(self@.steps[j as int] == self.plan.steps@[j as int]@);
                assert(class_of(self@.steps[j as int]) == self.script@[j as int]);
                plain(undo_step(&self.plan.steps[j]).unwrap())
            },
            _ => self.act_on_record(self.record.as_ref().unwrap(), order),
        }
    }
}

/// What follows an answer.
pub open spec fn next_of(x: Executor, answer: Answer) -> crate::run::Next {
    crate::run::transition(
        x.script@,
        x.control,
        event_of(x@, x.control.phase, answer),
    )
}

impl Executor {
    /// Take an answer and say what to do next. The first answer is
    /// [`Answer::Start`].
    pub fn resume(&mut self, answer: Answer) -> (action: Action)
        requires
            old(self).sound(),
            old(self).control.phase != Phase::Stopped,
        ensures
            final(self).sound(),
            final(self).script@ == old(self).script@,
            final(self).control == next_of(*old(self), answer).control,
            final(self)@ == book_after(old(self)@, old(self).control.phase, answer),
            action@ == realised(
                final(self)@,
                final(self).control.kind,
                next_of(*old(self), answer).order,
            ),
            match next_of(*old(self), answer).fault {
                Some(fault) => final(self).error is Some && blamed(
                    old(self)@,
                    old(self).control.phase,
                    answer,
                    fault,
                    final(self).error->Some_0,
                ),
                None => final(self).error == old(self).error,
            },
            action is Stop <==> final(self).control.phase == Phase::Stopped,
            action is Stop ==> (action->Stop_0 == End::Finished <==> final(self).error is None),
    {
        let ghost steps = self.script.len();
        let event = self.judge(&answer);
        let next = advance(&self.script, self.control, event);
        proof {
            lemma_consistent(self.script@, self.control, event);
        }
        let named = match (next.fault, &self.record) {
            (Some(fault), Some(r)) => name_fault(fault, r.device.as_str()),
            (Some(fault), None) => name_fault(fault, ""),
            (None, _) => String::new(),
        };
        proof {
            reveal_strlit("");
            assert(""@ =~= Seq::<char>::empty());
        }
        let reported = self.absorb(answer);
        match next.fault {
            Some(Fault::Reported) => {
                self.error = Some(reported);
            },
            Some(_) => {
                self.error = Some(identity_error(named.as_str()));
            },
            None => {},
        }
        self.control = next.control;
        match next.order {
            Order::Stop(end) => Action::Stop(end),
            order => self.realise(order),
        }
    }

    /// The outcome of a run that was told to stop.
    pub fn finish(self, end: End) -> (r: Result<(), ExecError>)
        ensures
            match self.error {
                None => r is Ok,
                Some(e) => match end {
                    End::RolledBack { rolled_back, failed } => r matches Err(
                        ExecError::RolledBack { error, rolled_back: n, rollback_failed: m },
                    ) && *error == e && n == rolled_back && m == failed,
                    _ => r == Err::<(), ExecError>(e),
                },
            },
    {
        match self.error {
            None => Ok(()),
            Some(error) => match end {
                End::RolledBack { rolled_back, failed } => Err(
                    ExecError::RolledBack {
                        error: Box::new(error),
                        rolled_back,
                        rollback_failed: failed,
                    },
                ),
                _ => Err(error),
            },
        }
    }
}

// ---------- laws ----------

/// A detach touches nothing but the recorded attachment: whatever it waits for,
/// it is a look at the recorded device or attachment, the recorded mount, group
/// or device being taken down, or the record being retired.
pub proof fn detaches_touch_only_the_recorded_attachment(book: Book, c: Control)
    requires
        c.kind == Kind::Detach,
        crate::run::of_kind(c.kind, c.phase),
        c.phase != Phase::Ready,
        c.phase != Phase::Stopped,
        book.record is Some,
    ensures
        ({
            let record = book.record->Some_0;
            let deed = realised(book, c.kind, awaited(c));
            ||| deed == Deed::Probe(record.device)
            ||| deed == (Deed::Observe { record, allow_missing: false })
            ||| deed == (Deed::Run {
                step: crate::plan::Step::Umount { mountpoint: record.attachment.mountpoint },
                identifier: None,
            })
            ||| deed == (Deed::Run {
                step: crate::plan::Step::LvmDeactivate { vg_name: record.attachment.vg_name },
                identifier: None,
            })
            ||| deed == (Deed::Run {
                step: crate::plan::Step::NbdDisconnect { device: record.device },
                identifier: None,
            })
            ||| deed == Deed::Retire(book.volume)
        }),
{
}

/// A growth touches nothing but the recorded attachment.
pub proof fn growths_touch_only_the_recorded_attachment(book: Book, c: Control)
    requires
        c.kind == Kind::Grow,
        crate::run::of_kind(c.kind, c.phase),
        crate::run::fits(classes(book.steps), c),
        c.phase != Phase::Ready,
        c.phase != Phase::Stopped,
        book.record is Some,
        grows_own(book.steps, book.record->Some_0),
    ensures
        ({
            let record = book.record->Some_0;
            let deed = realised(book, c.kind, awaited(c));
            ||| deed == Deed::Probe(record.device)
            ||| deed == (Deed::Observe { record, allow_missing: false })
            ||| deed matches Deed::Run { step, identifier } && identifier is None && enlarges_own(
                step,
                record,
            )
            ||| deed matches Deed::ReadSize(step) && enlarges_own(step, record)
            ||| deed matches Deed::Extend { step, .. } && enlarges_own(step, record)
            ||| deed == Deed::WriteRecord(record)
            ||| deed == Deed::WriteRecord(crate::state::Record { growth_target: None, ..record })
        }),
{
}

/// A growth that is tried again aims at the size that the record keeps from the
/// first attempt, and leaves a volume alone that has it already.
pub proof fn repeated_growths_aim_at_the_kept_size(book: Book, i: usize, size: u64, kept: u64)
    requires
        book.record is Some,
        book.record->Some_0.growth_target == Some(kept),
    ensures
        ({
            let answer = Answer::Size(Ok(size));
            let after = book_after(book, Phase::GrowSize(i), answer);
            &&& after == book
            &&& realised(after, Kind::Grow, Order::PersistTarget) == Deed::WriteRecord(
                book.record->Some_0,
            )
            &&& realised(after, Kind::Grow, Order::Extend(i)) == (Deed::Extend {
                step: book.steps[i as int],
                target: kept,
            })
            &&& event_of(book, Phase::GrowSize(i), answer) == Event::Sized(
                if kept <= size {
                    Extent::Reached
                } else {
                    Extent::Short
                },
            )
        }),
{
}

/// A first growth aims at the present size and the increase, and writes that
/// size into the record before it extends the volume to it.
pub proof fn first_growths_add_to_the_present_size(book: Book, i: usize, size: u64)
    requires
        book.record is Some,
        book.record->Some_0.growth_target is None,
        size + increase(book.steps, Phase::GrowSize(i)) <= u64::MAX,
    ensures
        ({
            let answer = Answer::Size(Ok(size));
            let after = book_after(book, Phase::GrowSize(i), answer);
            let target = (size + increase(book.steps, Phase::GrowSize(i))) as u64;
            &&& event_of(book, Phase::GrowSize(i), answer) == Event::Sized(Extent::Short)
            &&& realised(after, Kind::Grow, Order::PersistTarget) == Deed::WriteRecord(
                crate::state::Record { growth_target: Some(target), ..book.record->Some_0 },
            )
            &&& realised(after, Kind::Grow, Order::Extend(i)) == (Deed::Extend {
                step: book.steps[i as int],
                target,
            })
        }),
{
}

/// The probe of a filesystem counts as a success only if it is an XFS, and the
/// pinned one where the plan pins one; what was mounted only if it lies on the
/// recorded device alone.
pub proof fn only_the_expected_filesystem_is_accepted(book: Book, i: usize, answer: Answer)
    ensures
        event_of(book, Phase::MountFilesystem(i), answer) == Event::Done(true) <==> (
        answer matches Answer::Identified(Ok(probe)) && probe_complaint(book, probe.0, probe.1@)
            is None),
        event_of(book, Phase::MountDevice(i), answer) == Event::Done(true) <==> (
        answer matches Answer::Mounted(Ok(observed)) && mount_complaint(book, observed) is None),
{
}

/// A disconnecting step of an attach disconnects the recorded device and no
/// other.
pub proof fn attaches_disconnect_only_the_recorded_device(x: Executor, i: usize)
    requires
        x.sound(),
        x.control.kind is Attach,
        on_record(x.control.phase),
        i < x@.steps.len(),
        x@.steps[i as int] is NbdDisconnect,
    ensures
        realised(x@, x.control.kind, Order::Run(i)) == (Deed::Run {
            step: crate::plan::Step::NbdDisconnect { device: x@.record->Some_0.device },
            identifier: None,
        }),
{
}

/// A plan that disconnects a device runs as an attach or as a detach, both of
/// which verify the backend first, or not at all.
pub proof fn disconnections_belong_to_an_attachment(plan: Plan, stored: Stored)
    requires
        disconnects(plan.view_steps()),
        admitted(plan, stored) is Ok,
    ensures
        admitted(plan, stored)->Ok_0 is Attach || admitted(plan, stored)->Ok_0 is Detach,
{
}

/// A device is connected under exactly the identifier that its record holds, so
/// that the backend is ours if and only if the kernel shows that identifier.
pub proof fn connections_carry_the_recorded_identifier(book: Book, kind: Kind, i: usize, shown: String)
    requires
        book.record is Some,
        i < book.steps.len(),
        book.steps[i as int] is NbdConnect,
    ensures
        realised(book, kind, Order::Run(i)) == (Deed::Run {
            step: book.steps[i as int],
            identifier: Some(book.record->Some_0.connection_id),
        }),
        judged(book.record, Ok(Some(shown))) == Backend::Ours <==> shown@
            == book.record->Some_0.connection_id,
{
}

// ---------- what is admitted, and what answers mean ----------

/// The plan of an attach puts every mount behind an activation and every
/// sentinel behind a mount.
pub proof fn attach_plans_are_well_ordered(request: crate::plan::AttachRequest)
    ensures
        crate::run::well_ordered(classes(crate::plan::attach_steps(request))),
{
    let script = classes(crate::plan::attach_steps(request));
    crate::plan::an_attach_does_these_steps(request);
    assert(script[3] == StepClass::Activate);
    assert(script[4] == StepClass::Mount);
    reveal_with_fuel(crate::run::preceded, 3);
    assert(crate::run::preceded(script, 4, StepClass::Activate));
    assert(crate::run::preceded(script, 5, StepClass::Mount));
}

/// The plan of an attach is admitted under the lock, whatever record there is,
/// and allocates a device exactly when the request names none.
pub proof fn attach_plans_are_admitted(
    request: crate::plan::AttachRequest,
    plan: Plan,
    found: Option<BoundDeviceRecord>,
)
    requires
        plan.view_steps() == crate::plan::attach_steps(request),
        identity_view(plan.attachment) == Some(crate::plan::identity_of(request)),
    ensures
        admitted(plan, Some(Ok(found))) == Ok::<Kind, Refusal>(
            Kind::Attach {
                prior: found is Some,
                allocate: request.nbd_device@ == AUTO_NBD_DEVICE@,
            },
        ),
        admitted(plan, None) is Err,
{
    let steps = plan.view_steps();
    crate::plan::an_attach_does_these_steps(request);
    reveal_with_fuel(connect_device, 3);
    assert(connect_device(steps, 0) == Some(request.nbd_device@));
    assert forall|i: int| 0 <= i < steps.len() implies (
    #[trigger] steps[i] matches crate::plan::Step::LvmActivate { vg_name } ==> vg_name
        == request.vg_name@) && !(steps[i] is NbdDisconnect) by {}
    assert(activations_match(steps, identity_view(plan.attachment)));
    assert(disconnections_match(steps));
    if request.nbd_device@ == AUTO_NBD_DEVICE@ {
        assert(crate::plan::step_is_open(steps[1]));
    } else {
        assert forall|i: int| 0 <= i < steps.len() implies !crate::plan::step_is_open(
            #[trigger] steps[i],
        ) by {}
    }
}

/// The plan of a detach is admitted exactly with the record of the same
/// attachment, on the same device where it names one.
pub proof fn detach_plans_are_admitted_with_their_record(
    request: crate::plan::AttachRequest,
    plan: Plan,
    record: BoundDeviceRecord,
)
    requires
        plan.view_steps() == crate::plan::detach_steps(request),
        identity_view(plan.attachment) == Some(crate::plan::identity_of(request)),
    ensures
        admitted(plan, Some(Ok(Some(record)))) == Ok::<Kind, Refusal>(Kind::Detach) <==> {
            &&& record@.attachment == crate::plan::identity_of(request)
            &&& request.nbd_device@ == AUTO_NBD_DEVICE@ || request.nbd_device@ == record@.device
        },
        admitted(plan, Some(Ok(None))) is Err,
        admitted(plan, None) is Err,
{
    let steps = plan.view_steps();
    reveal_with_fuel(connect_device, 5);
    assert(connect_device(steps, 0) is None);
    assert(steps[2] is NbdDisconnect);
}

/// The plan of a growth is admitted exactly with the record of an attachment
/// that has the same names.
pub proof fn growth_plans_are_admitted_with_their_record(
    request: crate::plan::GrowRequest,
    plan: Plan,
    record: BoundDeviceRecord,
)
    requires
        plan.view_steps() == crate::plan::grow_steps(request),
        plan.attachment is None,
    ensures
        admitted(plan, Some(Ok(Some(record)))) == Ok::<Kind, Refusal>(Kind::Grow) <==> {
            &&& record@.attachment.vg_name == request.vg_name@
            &&& record@.attachment.lv_name == request.lv_name@
            &&& record@.attachment.mountpoint == request.mountpoint@
        },
        admitted(plan, Some(Ok(None))) is Err,
        admitted(plan, None) is Err,
{
    let steps = plan.view_steps();
    reveal_with_fuel(connect_device, 4);
    assert(connect_device(steps, 0) is None);
    assert(enlarges(steps[0]));
    assert forall|i: int| 0 <= i < steps.len() implies !(#[trigger] steps[i] is NbdDisconnect) by {}
    if grows_own(steps, record@) {
        assert(enlarges_own(steps[0], record@));
        assert(enlarges_own(steps[1], record@));
    }
}

/// What a step is to a run.
pub proof fn steps_are_classed_by_what_they_do(step: crate::plan::Step)
    ensures
        class_of(step) == StepClass::Connect <==> step is NbdConnect,
        class_of(step) == StepClass::Activate <==> step is LvmActivate,
        class_of(step) == StepClass::Mount <==> step is MountXfs,
        class_of(step) == StepClass::Sentinel <==> step is WriteSentinel,
        class_of(step) == StepClass::Disconnect <==> step is NbdDisconnect,
        class_of(step) == StepClass::Extend <==> step is LvExtend,
{
}

/// An answer that says a thing was done counts as done, one that reports an
/// error does not, and one to another question never does.
pub proof fn answers_count_for_what_they_say(
    book: Book,
    phase: Phase,
    answer: Answer,
)
    ensures
        replies(phase, answer) && answer is Ran ==> (event_of(book, phase, answer) == Event::Done(
            answer->Ran_0 is Ok,
        )),
        replies(phase, answer) && answer is Allocated ==> event_of(book, phase, answer)
            == Event::Done(answer->Allocated_0 is Ok),
        replies(phase, answer) && answer is Verified ==> event_of(book, phase, answer)
            == Event::Done(answer->Verified_0 is Ok),
        replies(phase, answer) && answer is Nonce && book.attachment is Some ==> event_of(
            book,
            phase,
            answer,
        ) == Event::Done(answer->Nonce_0 is Ok),
        replies(phase, answer) && answer is Observed ==> event_of(book, phase, answer)
            == Event::Observed(
            match answer->Observed_0 {
                Ok(o) => Some(o),
                Err(_) => None,
            },
        ),
        !replies(phase, answer) ==> event_of(book, phase, answer) == Event::Done(false)
            && book_after(book, phase, answer) == book,
{
}

/// The backend of the recorded device is ours, another's, gone or unknown.
pub proof fn backends_are_told_apart(
    book: Book,
    record: crate::state::Record,
    id: String,
    why: String,
)
    requires
        book.record == Some(record),
    ensures
        judged(book.record, Ok(Some(id))) == if id@ == record.connection_id {
            Backend::Ours
        } else {
            Backend::Foreign
        },
        judged(book.record, Ok(None)) == Backend::Absent,
        judged(book.record, Err(why)) == Backend::Unreadable,
{
}

/// The record that an attach prepares is that of its own attachment, on the
/// device that it connects, under an identifier that holds the nonce.
pub proof fn records_are_prepared_from_the_plan(book: Book, nonce: String)
    requires
        book.attachment is Some,
        connect_device(book.steps, 0) is Some,
        crate::text::plain_word(nonce@),
    ensures
        ({
            let after = book_after(book, Phase::Prepare, Answer::Nonce(Ok(nonce)));
            let record = after.record->Some_0;
            &&& after.record is Some
            &&& record.version == 1
            &&& record.volume == book.volume
            &&& record.attachment == book.attachment->Some_0
            &&& connect_device(book.steps, 0) == Some(record.device)
            &&& record.connection_id == "maki-"@ + nonce@
            &&& record.recovery is None
            &&& record.recovery_intent is None
            &&& record.growth_target is None
            &&& after.steps == book.steps
        }),
{
    crate::text::line_feeds_are_trimmed(nonce@);
}

/// Verified metadata becomes the record's intent, and the captured mappings its
/// proof in the intent's place; nothing else of the record changes.
pub proof fn records_keep_what_was_verified(
    book: Book,
    i: usize,
    verified: VerifiedLvm,
    proof_of: RecoveryProof,
)
    requires
        book.record is Some,
    ensures
        ({
            let before = book.record->Some_0;
            let intent = book_after(book, Phase::Preflight(i), Answer::Verified(Ok(verified)));
            let proven = book_after(book, Phase::Capture(i), Answer::Captured(Ok(Some(proof_of))));
            &&& intent.verified == Some(verified@)
            &&& intent.record == Some(
                crate::state::Record { recovery_intent: Some(verified@), ..before },
            )
            &&& proven.record == Some(
                crate::state::Record {
                    recovery: Some(
                        (crate::recover::nodes_view(proof_of.nodes@), proof_of.mount_permitted),
                    ),
                    recovery_intent: None,
                    ..before
                },
            )
            &&& proven.verified == book.verified
        }),
{
}

/// What an attach asks for where it stands speaks of its own record, of the
/// metadata that it verified, and of the steps of its plan.
pub proof fn orders_speak_of_the_own_attachment(book: Book, kind: Kind, i: usize)
    requires
        book.record is Some,
        book.verified is Some,
        i < book.steps.len(),
    ensures
        ({
            let record = book.record->Some_0;
            let verified = book.verified->Some_0;
            &&& realised(book, kind, Order::Probe) == Deed::Probe(record.device)
            &&& realised(book, kind, Order::WriteRecord) == Deed::WriteRecord(record)
            &&& realised(book, kind, Order::PersistIntent) == Deed::WriteRecord(record)
            &&& realised(book, kind, Order::PersistProof) == Deed::WriteRecord(record)
            &&& realised(book, kind, Order::Preflight) == Deed::Preflight(record)
            &&& realised(book, kind, Order::Activate) == (Deed::Activate { record, verified })
            &&& realised(book, kind, Order::VerifyActivated) == (Deed::VerifyActivated {
                record,
                verified,
            })
            &&& realised(book, kind, Order::VerifyRollback) == (Deed::VerifyRollback {
                record,
                verified,
            })
            &&& realised(book, kind, Order::Capture) == Deed::Capture(record)
            &&& realised(book, kind, Order::Retire) == Deed::Retire(book.volume)
            &&& realised(book, kind, Order::Observe { allow_missing: true }) == (Deed::Observe {
                record,
                allow_missing: true,
            })
            &&& realised(book, kind, Order::Observe { allow_missing: false }) == (Deed::Observe {
                record,
                allow_missing: false,
            })
            &&& realised(book, kind, Order::WaitReady(i)) == (Deed::WaitReady {
                step: book.steps[i as int],
                device: record.device,
            })
            &&& !(book.steps[i as int] is NbdConnect) ==> realised(book, kind, Order::Run(i)) == (
            Deed::Run { step: book.steps[i as int], identifier: None })
            &&& book.steps[i as int] matches crate::plan::Step::MountXfs { device, mountpoint }
                ==> realised(book, kind, Order::VerifyFilesystem(i)) == (Deed::Identify { device })
                && realised(book, kind, Order::VerifyDevice(i)) == (Deed::ObserveMount {
                mountpoint,
                device: record.device,
            })
            &&& realised(book, kind, Order::TakeDown(Layer::Mount)) == (Deed::Run {
                step: crate::plan::Step::Umount { mountpoint: record.attachment.mountpoint },
                identifier: None,
            })
            &&& realised(book, kind, Order::TakeDown(Layer::Device)) == (Deed::Run {
                step: crate::plan::Step::NbdDisconnect { device: record.device },
                identifier: None,
            })
            &&& realised(book, kind, Order::TakeDown(Layer::Group)) == if kind is Attach {
                Deed::Deactivate { record, verified }
            } else {
                Deed::Run {
                    step: crate::plan::Step::LvmDeactivate { vg_name: record.attachment.vg_name },
                    identifier: None,
                }
            }
        }),
{
}

/// Before an attach has a record, it looks at the device that it will connect,
/// and at what its predecessor left.
pub proof fn orders_before_the_record(book: Book, kind: Kind, device: Seq<char>)
    requires
        book.prior is Some,
        connect_device(book.steps, 0) == Some(device),
    ensures
        realised(book, kind, Order::ProbePrior) == Deed::Probe(book.prior->Some_0.device),
        realised(book, kind, Order::ObservePrior) == (Deed::Observe {
            record: book.prior->Some_0,
            allow_missing: false,
        }),
        realised(book, kind, Order::ProbeTarget) == Deed::Probe(device),
        realised(book, kind, Order::Modprobe) == (Deed::Run {
            step: crate::plan::Step::ModprobeNbd,
            identifier: None,
        }),
        realised(book, kind, Order::Allocate) == Deed::Allocate,
        realised(book, kind, Order::Prepare) == Deed::DrawNonce,
{
}

/// The filesystem UUID that a mount is held to is the one that the request pins,
/// and none where it pins none.
pub proof fn mounts_are_held_to_the_pinned_uuid(request: crate::plan::AttachRequest)
    ensures
        pinned_uuid(crate::plan::attach_steps(request), 0) == crate::text::optional(request.fs_uuid),
{
    let steps = crate::plan::attach_steps(request);
    crate::plan::an_attach_does_these_steps(request);
    reveal_with_fuel(pinned_uuid, 8);
}

/// A growth with a size kept from an earlier attempt is done once the volume has
/// that size; a first attempt always enlarges, where the sum is a size at all.
pub proof fn growths_are_done_at_their_kept_size(kept: u64, size: u64, add: u64)
    ensures
        extent(Some(kept), size, add) == if size >= kept {
            Extent::Reached
        } else {
            Extent::Short
        },
        extent(None, size, add) == if size + add <= u64::MAX {
            Extent::Short
        } else {
            Extent::Unknown
        },
{
}

/// A failure is passed on as it was reported, and an answer to something else is
/// called unexpected.
pub proof fn failures_are_passed_on(book: Book, phase: Phase, answer: Answer, e: ExecError)
    requires
        reports(book, phase, answer, e),
    ensures
        replies(phase, answer) ==> (answer matches Answer::Ran(Err(x)) ==> e == x),
        replies(phase, answer) ==> (answer matches Answer::Allocated(Err(x)) ==> e == x),
        replies(phase, answer) ==> (answer matches Answer::Verified(Err(x)) ==> e == x),
        replies(phase, answer) ==> (answer matches Answer::Backend(Err(m)) ==> e
            == ExecError::Io(m)),
        replies(phase, answer) ==> (answer matches Answer::Observed(Err(m)) ==> e
            == ExecError::Io(m)),
        replies(phase, answer) ==> (answer matches Answer::Captured(Err(m)) ==> e
            == ExecError::Io(m)),
        replies(phase, answer) ==> (answer matches Answer::Identified(Err(m)) ==> e
            == ExecError::Io(m)),
        replies(phase, answer) ==> (answer matches Answer::Mounted(Err(m)) ==> e
            == ExecError::Io(m)),
        replies(phase, answer) ==> (answer matches Answer::Size(Err(m)) ==> e == ExecError::Io(m)),
        !replies(phase, answer) ==> is_identity_error(e, "unexpected answer"@),
{
}

/// A layer is taken down by the record: its mountpoint is unmounted, its group
/// deactivated and its device disconnected. A rollback deactivates the group as
/// it was verified.
pub proof fn layers_are_taken_down_by_the_record(
    book: Book,
    kind: Kind,
    record: crate::state::Record,
    verified: crate::lvm_preflight::Verified,
)
    requires
        book.record == Some(record),
        book.verified == Some(verified),
    ensures
        taken_down(book, kind, Layer::Mount) == (Deed::Run {
            step: crate::plan::Step::Umount { mountpoint: record.attachment.mountpoint },
            identifier: None,
        }),
        kind is Attach ==> taken_down(book, kind, Layer::Group) == (Deed::Deactivate {
            record,
            verified,
        }),
        !(kind is Attach) ==> taken_down(book, kind, Layer::Group) == (Deed::Run {
            step: crate::plan::Step::LvmDeactivate { vg_name: record.attachment.vg_name },
            identifier: None,
        }),
        taken_down(book, kind, Layer::Device) == (Deed::Run {
            step: crate::plan::Step::NbdDisconnect { device: record.device },
            identifier: None,
        }),
{
}

/// Only the connection of a recorded attachment carries an identifier, the
/// recorded one.
pub proof fn only_connections_carry_an_identifier(
    book: Book,
    i: int,
    record: crate::state::Record,
)
    requires
        book.record == Some(record),
    ensures
        book.steps[i] is NbdConnect ==> identifier_of(book, i) == Some(record.connection_id),
        !(book.steps[i] is NbdConnect) ==> identifier_of(book, i) is None,
{
}

/// A detach of a recorded attachment takes exactly its three layers, from the
/// mount down, whether its device is named or left open; a growth names no other
/// attachment.
pub proof fn detach_steps_take_the_three_layers(
    record: crate::state::Record,
    device: Seq<char>,
    other: crate::plan::Identity,
)
    ensures
        detaches(
            seq![
                crate::plan::Step::Umount { mountpoint: record.attachment.mountpoint },
                crate::plan::Step::LvmDeactivate { vg_name: record.attachment.vg_name },
                crate::plan::Step::NbdDisconnect { device },
            ],
            record,
        ) <==> device == record.device || device == AUTO_NBD_DEVICE@,
        growth_matches(None, record),
        growth_matches(Some(record.attachment), record),
        other != record.attachment ==> !growth_matches(Some(other), record),
{
}

/// What stands in the way of a run is told as an error about the attachment's
/// identity, in these words.
pub proof fn faults_are_told_in_these_words(device: Seq<char>, text: Seq<char>, e: ExecError)
    ensures
        is_identity_error(e, text) <==> (e matches ExecError::Step { step, message } && step@
            == "nbd-identity"@ && message@ == text),
        refused(e, Refusal::Identity(text)) <==> is_identity_error(e, text),
        refused(e, Refusal::State(text)) <==> (e matches ExecError::Io(m) && m@ == text),
        fault_text(Fault::StillConnected, device)
            == "recorded device is still connected; detach or verify its stale state before attaching"@,
        fault_text(Fault::PriorLive, device)
            == "recorded attachment still has live resources; detach or recover it before attaching"@,
        fault_text(Fault::AlreadyConnected, device) == "requested NBD device is already connected"@,
        fault_text(Fault::TargetLive, device)
            == "resources of this attachment are live without a record; refusing to adopt them"@,
        fault_text(Fault::NotOurs, device) == device
            + " no longer has the recorded attachment identity; refusing to disconnect"@,
        fault_text(Fault::InUse, device) == "NBD device has users outside the recorded attachment"@,
        fault_text(Fault::BackendLost, device)
            == "NBD backend is gone but resources of the recorded attachment are live"@,
        fault_text(Fault::NotMounted, device) == "recorded attachment is not mounted and active"@,
        change_complaint(GroupChange::Activation) == "scoped LVM activation failed"@,
        change_complaint(GroupChange::Rollback) == "scoped LVM rollback failed"@,
        change_complaint(GroupChange::Recovery) == "scoped LVM recovery deactivation failed"@,
{
}

/// An error names the fault of the recorded device, unless the answer reported
/// one itself.
pub proof fn errors_blame_the_recorded_device(
    book: Book,
    phase: Phase,
    answer: Answer,
    fault: Fault,
    e: ExecError,
    record: crate::state::Record,
)
    requires
        book.record == Some(record),
    ensures
        fault != Fault::Reported ==> (blamed(book, phase, answer, fault, e) <==> is_identity_error(
            e,
            fault_text(fault, record.device),
        )),
        fault == Fault::Reported ==> (blamed(book, phase, answer, fault, e) <==> reports(
            book,
            phase,
            answer,
            e,
        )),
{
}

/// A run waits for one kind of answer at a time.
pub proof fn answers_fit_what_was_asked(i: usize, layer: Layer, answer: Answer)
    ensures
        replies(Phase::Ready, answer) <==> answer is Start,
        replies(Phase::Allocate, answer) <==> answer is Allocated,
        replies(Phase::Prepare, answer) <==> answer is Nonce,
        replies(Phase::Preflight(i), answer) <==> answer is Verified,
        replies(Phase::Activate(i), answer) <==> answer is Activated,
        replies(Phase::Capture(i), answer) <==> answer is Captured,
        replies(Phase::MountFilesystem(i), answer) <==> answer is Identified,
        replies(Phase::MountDevice(i), answer) <==> answer is Mounted,
        replies(Phase::GrowSize(i), answer) <==> answer is Size,
        replies(Phase::TargetBackend, answer) <==> answer is Backend,
        replies(Phase::DetachBackend, answer) <==> answer is Backend,
        replies(Phase::RollBackend, answer) <==> answer is Backend,
        replies(Phase::DetachObserve, answer) <==> answer is Observed,
        replies(Phase::RollObserve, answer) <==> answer is Observed,
        replies(Phase::TargetObserve, answer) <==> answer is Observed,
        replies(Phase::Step(i), answer) <==> answer is Ran,
        replies(Phase::DetachRun(layer), answer) <==> answer is Ran,
        replies(Phase::RollRun(layer), answer) <==> answer is Ran,
        !replies(Phase::Stopped, answer),
{
}

/// A connection that is not the recorded one is refused; one that could not be
/// read is reported.
pub proof fn foreign_connections_are_refused(
    record: crate::state::Record,
    message: String,
    found: Option<String>,
    e: ExecError,
)
    ensures
        connection_error(record, Err(message), e) <==> e == ExecError::Io(message),
        connection_error(record, Ok(found), e) <==> is_identity_error(
            e,
            record.device
                + " no longer has the recorded attachment identity; refusing to disconnect"@,
        ),
{
}

} // verus!
