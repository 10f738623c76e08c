//! Attach, detach, growth, recovery and the workload guard, run against a
//! simulated machine: the library decides, the fixture obeys.

use std::collections::HashMap;

use maki::config::{AttachConfig, AttachOverrides};
use maki::detach::{observe_rollback, DetachObservation};
use maki::exec::{
    allocate_nbd_device, backing_devices, choose_target, command_of, extension_arguments,
    filesystem_arguments, identity_error, judge_readiness, judge_run, nbd_backend, plan_sentinel,
    printed_size, printed_uuid, rw_probe_name, rw_probe_payload, sentinel_value, size_arguments,
    verify_filesystem_probe, Attribute, ExecError, Readiness, SentinelAction, SENTINEL_MAX_BYTES,
};
use maki::executor::{
    authorize_deactivation, authorize_recovery_deactivation, judge_group_change, needs_lock,
    verify_connection, Action, Answer, Executor, GroupChange,
};
use maki::lvm_preflight::{
    validate, verify_mapping, verify_rollback_mapping, Device, Group, Lv, Pv, VerifiedLvm, Vg,
};
use maki::plan::{
    plan_attach, plan_detach, plan_grow, AttachRequest, AttachmentIdentity, GrowRequest, Plan,
    PlannedStep, AUTO_NBD_DEVICE,
};
use maki::probe::parse_mountinfo;
use maki::recover::{
    capture, force_deactivation_target_at, observe, observe_complete, BlockIdentity,
};
use maki::recovery::{Deed, Recovery, Removal};
use maki::state::BoundDeviceRecord;
use maki::sysfs::{BlockEntry, BlockTree};
use maki::table::Table;
use maki::verify::{verify_mount_identity, MountExpectation, MountObservation};
use maki::workload_verify::{
    accept_sentinel, check_mount_root, check_probe_device, Question, Reply, WorkloadGuard,
};

const FS_UUID: &str = "11111111-2222-4333-8444-555555555555";
const OTHER_UUID: &str = "aaaaaaaa-bbbb-4ccc-8ddd-eeeeeeeeeeee";
const VG_UUID: &str = "aaaaaa-bbbb-cccc-dddd-eeee-ffff-gggggg";

fn request() -> AttachRequest {
    AttachConfig {
        volume_uuid: Some("0f7c2b1a-3d4e-4f5a-8b6c-7d8e9f0a1b2c".into()),
        ..AttachConfig::default()
    }
    .into_request("pg", AttachOverrides::default(), true)
    .unwrap()
}

fn grow_request() -> GrowRequest {
    let r = request();
    GrowRequest {
        volume: r.volume,
        vg_name: r.vg_name,
        lv_name: r.lv_name,
        add_bytes: 1 << 30,
        mountpoint: r.mountpoint,
    }
}

#[derive(Clone, Copy, Debug)]
enum BackendFault {
    Foreign,
    Missing,
    Unreadable,
}

fn faulty(fault: BackendFault) -> Result<Option<String>, String> {
    match fault {
        BackendFault::Foreign => Ok(Some("other-connection".into())),
        BackendFault::Missing => Ok(None),
        BackendFault::Unreadable => Err("fixture backend unreadable".into()),
    }
}

/// The simulated machine with its stored records.
#[derive(Default)]
struct World {
    pv_name: Option<String>,
    lv_layout: Option<String>,
    wrong_activation_uuid: bool,
    mapping_during_preflight: bool,
    process_death_after_activation: bool,
    backends: HashMap<String, String>,
    steps: Vec<&'static str>,
    fail_at: Option<&'static str>,
    fail_after_at: Option<&'static str>,
    readiness_failure: bool,
    replace_on_failure: bool,
    replace_after_deactivate: bool,
    obstruct_record_cleanup: bool,
    mounted: bool,
    vg_active: bool,
    foreign_mount: bool,
    foreign_vg: bool,
    extra_holders: bool,
    observation_error: bool,
    observation_error_after: Option<&'static str>,
    backend_fault_after: Option<(&'static str, BackendFault)>,
    backend_fault_on_probe: Option<(usize, BackendFault)>,
    backend_probes: usize,
    nonces: u32,
    records: HashMap<String, BoundDeviceRecord>,
    /// The kernel's tree, where the real observers are to be used.
    tree: Option<BlockTree>,
    /// The mounts, where they are not derived.
    mountinfo: Option<String>,
    sentinel: Option<String>,
    lv_size: u64,
    filesystem_type: Option<&'static str>,
    filesystem_uuid: Option<String>,
    filesystem_probes: usize,
    /// What the probe of the filesystem is to answer.
    probe_override: Option<(bool, Vec<u8>)>,
    replace_mapping_before_probe: bool,
    replace_mapping_after_probe: bool,
    /// The mounted bytes turn out to live on another disk.
    foreign_backing: bool,
    /// The last step of an attach verifies the mount for real.
    verify_identity: bool,
    rw_probes: usize,
    /// What cannot be read: the filesystem, the mount or the size.
    unreadable: Option<&'static str>,
}

fn number_of(path: &str) -> Option<(u32, u32)> {
    if path == "/dev/nbd3" {
        Some((43, 3))
    } else {
        None
    }
}

impl World {
    /// A machine whose block-device tree is observed for real.
    fn observed() -> Self {
        let mut nbd = BlockEntry::named("nbd3");
        nbd.dev = Some("43:3\n".into());
        nbd.size = Some("1024\n".into());
        nbd.holders = Some(vec![]);
        World {
            tree: Some(BlockTree { entries: vec![nbd], odd_names: false }),
            ..World::default()
        }
    }

    fn tree(&self) -> &BlockTree {
        self.tree.as_ref().unwrap()
    }

    fn entry(&mut self, name: &str) -> &mut BlockEntry {
        let entries = &mut self.tree.as_mut().unwrap().entries;
        if !entries.iter().any(|e| e.name == name) {
            entries.push(BlockEntry::named(name));
        }
        entries.iter_mut().find(|e| e.name == name).unwrap()
    }

    fn set(&mut self, path: &str, value: &str) {
        let (name, attribute) = path.split_once('/').unwrap();
        let entry = self.entry(name);
        match attribute {
            "dev" => entry.dev = Some(value.into()),
            "dm/name" => entry.dm_name = Some(value.into()),
            "dm/uuid" => entry.dm_uuid = Some(value.into()),
            other => match other.split_once('/').unwrap() {
                ("slaves", slave) => entry.slaves.get_or_insert_with(Vec::new).push(slave.into()),
                (_, holder) => entry.holders.get_or_insert_with(Vec::new).push(holder.into()),
            },
        }
    }

    fn mounts(&self, record: &BoundDeviceRecord) -> String {
        self.mounts_at(&record.attachment.mountpoint)
    }

    fn mounts_at(&self, mountpoint: &str) -> String {
        if let Some(text) = &self.mountinfo {
            return text.clone();
        }
        if self.mounted {
            format!("40 25 253:0 / {mountpoint} rw - xfs /dev/mapper/vg_maki_pg-data rw\n")
        } else {
            String::new()
        }
    }

    fn observe_mount(&self, mountpoint: &str, device: &str) -> MountObservation {
        let entry = parse_mountinfo(&self.mounts_at(mountpoint), mountpoint);
        let found = match (&self.tree, &entry) {
            _ if self.foreign_backing => vec!["/dev/sda".to_string()],
            (Some(tree), Some(entry)) => backing_devices(tree, &entry.major_minor),
            (Some(_), None) => vec![],
            (None, _) => vec![device.to_string()],
        };
        MountObservation {
            mountpoint_exists: true,
            fstype: entry.map(|_| self.filesystem_type.unwrap_or("xfs").to_string()),
            fs_uuid: self.filesystem_uuid.clone(),
            sentinel_volume_uuid: None,
            nbd_connected: self.backends.contains_key(device),
            rw_probe_ok: false,
            backing_devices: found,
        }
    }

    fn readable(&self, what: &str) -> Result<(), String> {
        if self.unreadable == Some(what) {
            return Err(format!("fixture {what} unreadable"));
        }
        Ok(())
    }

    fn identify(&mut self) -> (bool, Vec<u8>) {
        self.steps.push("verify-filesystem-identity");
        self.filesystem_probes += 1;
        let shown = self.probe_override.take().unwrap_or_else(|| {
            let uuid = match &self.filesystem_uuid {
                Some(uuid) => format!("UUID={uuid}\n"),
                None => String::new(),
            };
            let kind = self.filesystem_type.unwrap_or("xfs");
            (true, format!("TYPE={kind}\n{uuid}").into_bytes())
        });
        if self.replace_mapping_after_probe {
            self.set("dm-0/dm/uuid", "foreign-mapper\n");
        }
        shown
    }

    /// The device-mapper entries follow the activation.
    fn update_tree(&mut self) {
        if self.tree.is_none() {
            return;
        }
        if self.vg_active {
            let uuid = if self.wrong_activation_uuid {
                "LVM-foreign\n"
            } else {
                "LVM-aaaaaabbbbccccddddeeeeffffgggggghhhhhhiiiijjjjkkkkllllmmmmnnnnnn\n"
            };
            let dm = self.entry("dm-0");
            dm.dm_name = Some("vg_maki_pg-data\n".into());
            dm.dm_uuid = Some(uuid.into());
            dm.dev = Some("253:0\n".into());
            dm.slaves = Some(vec!["nbd3".into()]);
            dm.holders = Some(vec![]);
            self.entry("nbd3").holders = Some(vec!["dm-0".into()]);
        } else {
            self.tree.as_mut().unwrap().entries.retain(|e| e.name != "dm-0");
            let holders = self.entry("nbd3").holders.as_mut().unwrap();
            holders.retain(|h| h != "dm-0");
        }
    }

    fn preflight(&mut self, record: &BoundDeviceRecord) -> Result<VerifiedLvm, ExecError> {
        if self.mapping_during_preflight {
            self.vg_active = true;
            self.update_tree();
        }
        let pv_name = self.pv_name.clone().unwrap_or_else(|| "/dev/nbd3".into());
        let group = Group {
            vg: vec![Vg {
                vg_name: "vg_maki_pg".into(),
                vg_uuid: VG_UUID.into(),
                vg_seqno: "1".into(),
                pv_count: "1".into(),
                vg_missing_pv_count: "0".into(),
                vg_partial: "0".into(),
                vg_exported: "0".into(),
                vg_systemid: "".into(),
                vg_lock_type: "".into(),
            }],
            pv: vec![Pv {
                number: number_of(&pv_name),
                pv_name,
                pv_uuid: "111111-2222-3333-4444-5555-6666-777777".into(),
                vg_uuid: VG_UUID.into(),
                pv_missing: "0".into(),
                pv_duplicate: "0".into(),
            }],
            lv: vec![Lv {
                lv_name: "data".into(),
                lv_uuid: "hhhhhh-iiii-jjjj-kkkk-llll-mmmm-nnnnnn".into(),
                vg_uuid: VG_UUID.into(),
                lv_layout: self.lv_layout.clone().unwrap_or_else(|| "linear".into()),
            }],
        };
        let devices = vec![Device {
            path: record.device.clone(),
            number: (43, 3),
            start: 0,
            sectors: 1024,
        }];
        let mut labels = Table::new();
        labels.insert(&record.device, "111111-2222-3333-4444-5555-6666-777777".to_string());
        let verified = validate(
            600,
            &Some(vec![group]),
            devices,
            labels,
            &record.attachment.vg_name,
            &record.attachment.lv_name,
        );
        verified.map_err(|e| ExecError::Io(e.to_string()))
    }

    fn run_step(&mut self, step: &PlannedStep, identifier: Option<String>) -> Result<(), ExecError> {
        let kind = step.kind();
        self.steps.push(kind);
        if self.fail_at == Some(kind) {
            if self.replace_on_failure {
                self.backends.insert("/dev/nbd3".into(), "other-connection".into());
            }
            return Err(identity_error("fixture command failed"));
        }
        match step {
            PlannedStep::MountXfs { .. } => self.mounted = true,
            PlannedStep::Umount { .. } => {
                if !self.mounted {
                    return Err(identity_error("fixture mount is already absent"));
                }
                self.mounted = false;
            }
            PlannedStep::LvmActivate { .. } => self.vg_active = true,
            PlannedStep::NbdConnect { device, .. } => {
                self.backends.insert(device.clone(), identifier.unwrap());
            }
            PlannedStep::NbdDisconnect { device } => {
                self.backends.remove(device);
            }
            PlannedStep::LvmDeactivate { .. } => {
                self.vg_active = false;
                if self.replace_after_deactivate {
                    self.backends.insert("/dev/nbd3".into(), "other-connection".into());
                }
            }
            PlannedStep::WriteSentinel { volume_uuid, .. } => {
                match plan_sentinel(step, &self.sentinel, volume_uuid) {
                    SentinelAction::Keep => {}
                    SentinelAction::Create(content) => {
                        self.sentinel = Some(content.trim().into())
                    }
                    SentinelAction::Refuse(error) => return Err(error),
                }
            }
            PlannedStep::VerifyMountIdentity { mountpoint, volume_uuid, fs_uuid, nbd_device } => {
                self.rw_probes += 1;
                let expected = MountExpectation {
                    fs_uuid: fs_uuid.clone(),
                    volume_uuid: volume_uuid.clone(),
                    nbd_device: nbd_device.clone(),
                };
                let observed = MountObservation {
                    sentinel_volume_uuid: self.sentinel.clone(),
                    rw_probe_ok: true,
                    ..self.observe_mount(mountpoint, nbd_device)
                };
                if self.verify_identity {
                    verify_mount_identity(&expected, &observed).map_err(ExecError::Verify)?;
                }
            }
            _ => {}
        }
        self.update_tree();
        if self.fail_after_at == Some(kind) {
            return Err(identity_error("fixture command failed after its effect"));
        }
        Ok(())
    }

    fn backend(&mut self, device: &str) -> Result<Option<String>, String> {
        self.backend_probes += 1;
        if let Some((expected, fault)) = self.backend_fault_on_probe {
            if self.backend_probes == expected {
                return faulty(fault);
            }
        }
        if let Some((step, fault)) = self.backend_fault_after {
            if self.steps.contains(&step) {
                return faulty(fault);
            }
        }
        Ok(self.backends.get(device).cloned())
    }

    fn detach_observation(
        &self,
        record: &BoundDeviceRecord,
        allow_missing: bool,
    ) -> Result<DetachObservation, String> {
        if let Some(tree) = &self.tree {
            return observe_rollback(
                record,
                &self.mounts(record),
                tree,
                &self.sentinel,
                allow_missing,
            )
            .map_err(|e| e.to_string());
        }
        if self.observation_error
            || self.observation_error_after.is_some_and(|step| self.steps.contains(&step))
            || (self.mounted && self.foreign_mount)
            || (self.vg_active && self.foreign_vg)
        {
            return Err("fixture mismatched or unreadable attachment".into());
        }
        Ok(DetachObservation {
            mounted: self.mounted,
            vg_active: self.vg_active,
            nbd_in_use: self.vg_active || self.extra_holders,
        })
    }

    fn write(&mut self, record: BoundDeviceRecord) -> Result<(), ExecError> {
        record.validate().map_err(ExecError::Io)?;
        self.records.insert(record.volume.clone(), record);
        Ok(())
    }

    fn retire(&mut self, volume: &str) -> Result<(), ExecError> {
        if self.obstruct_record_cleanup {
            return Err(ExecError::Io("record cannot be removed".into()));
        }
        self.records.remove(volume);
        Ok(())
    }

    fn read(&self, volume: &str) -> Option<BoundDeviceRecord> {
        self.records.get(volume).cloned()
    }

    fn recovery_observation(&self, record: &BoundDeviceRecord) -> Result<DetachObservation, String> {
        observe(record, &self.mounts(record), self.tree()).map_err(|e| e.to_string())
    }
}

/// Carry out a plan. `None` as the outcome is the death of the helper.
fn drive(plan: &Plan, locked: bool, world: &mut World) -> Option<Result<(), ExecError>> {
    let stored = if locked { Some(Ok(world.read(&plan.volume))) } else { None };
    let mut executor = match Executor::start(plan, stored) {
        Ok(executor) => executor,
        Err(error) => return Some(Err(error)),
    };
    let mut answer = Answer::Start;
    loop {
        answer = match executor.resume(answer) {
            Action::Probe(device) => Answer::Backend(world.backend(&device)),
            Action::Observe { record, allow_missing } => {
                Answer::Observed(world.detach_observation(&record, allow_missing))
            }
            Action::Run { step, identifier } => Answer::Ran(world.run_step(&step, identifier)),
            Action::Allocate => {
                let devices = vec![("nbd2".to_string(), true), ("nbd3".to_string(), false)];
                Answer::Allocated(allocate_nbd_device(&devices))
            }
            Action::DrawNonce => {
                world.nonces += 1;
                Answer::Nonce(Ok(format!("{:08x}-2222-4333-8444-555555555555\n", world.nonces)))
            }
            Action::WriteRecord(record) => Answer::Ran(world.write(record)),
            Action::WaitReady { .. } => Answer::Ran(if world.readiness_failure {
                Err(identity_error("fixture readiness timeout"))
            } else {
                Ok(())
            }),
            Action::Preflight(record) => Answer::Verified(world.preflight(&record)),
            Action::Activate { record, verified } => match world.preflight(&record) {
                Err(error) => Answer::Activated { attempted: false, result: Err(error) },
                Ok(fresh) if !fresh.matches(&verified) => Answer::Activated {
                    attempted: false,
                    result: Err(identity_error("fixture LVM metadata changed")),
                },
                Ok(_) => {
                    let vg_name = record.attachment.vg_name.clone();
                    let result = world.run_step(&PlannedStep::LvmActivate { vg_name }, None);
                    if world.process_death_after_activation {
                        return None;
                    }
                    Answer::Activated { attempted: true, result }
                }
            },
            Action::VerifyActivated { record, verified } => Answer::Ran(match &world.tree {
                Some(tree) => verify_mapping(&record, &verified, tree)
                    .map_err(|e| ExecError::Io(e.to_string())),
                None => Ok(()),
            }),
            Action::Capture(record) => {
                let proof = match &world.tree {
                    Some(tree) => capture(&record, &world.mounts(&record), tree)
                        .map(Some)
                        .map_err(|e| e.to_string()),
                    None => Ok(None),
                };
                if world.replace_mapping_before_probe {
                    world.set("dm-0/dm/uuid", "foreign-mapper\n");
                }
                Answer::Captured(proof)
            }
            Action::Identify { device } => {
                assert_eq!(device, "/dev/vg_maki_pg/data");
                let shown = world.identify();
                Answer::Identified(world.readable("filesystem").map(|()| shown))
            }
            Action::ObserveMount { mountpoint, device } => {
                let seen = world.observe_mount(&mountpoint, &device);
                Answer::Mounted(world.readable("mount").map(|()| seen))
            }
            Action::ReadSize(_) => Answer::Size(world.readable("size").map(|()| world.lv_size)),
            Action::Extend { step, target } => {
                if world.fail_at != Some("lvextend") {
                    world.lv_size = world.lv_size.max(target);
                }
                Answer::Ran(world.run_step(&step, None))
            }
            Action::VerifyRollback { record, verified } => Answer::Ran(match &world.tree {
                Some(tree) => verify_rollback_mapping(&record, &verified, tree)
                    .map_err(|e| ExecError::Io(e.to_string())),
                None => Ok(()),
            }),
            Action::Deactivate { record, .. } => {
                let vg_name = record.attachment.vg_name.clone();
                Answer::Ran(world.run_step(&PlannedStep::LvmDeactivate { vg_name }, None))
            }
            Action::Retire(volume) => Answer::Ran(world.retire(&volume)),
            Action::Stop(end) => return Some(executor.finish(end)),
        };
    }
}

fn execute_with(plan: &Plan, locked: bool, world: &mut World) -> Result<(), ExecError> {
    drive(plan, locked, world).expect("the helper died")
}

fn recover_with(plan: &Plan, world: &mut World) -> Result<(), ExecError> {
    let mut recovery = Recovery::start(plan, Ok(world.read(&plan.volume)))?;
    let mut answer = Answer::Start;
    loop {
        answer = match recovery.resume(answer) {
            Action::Probe(device) => Answer::Backend(world.backend(&device)),
            Action::Observe { record, .. } => Answer::Observed(world.recovery_observation(&record)),
            Action::Run { step, identifier } => Answer::Ran(world.run_step(&step, identifier)),
            Action::Deactivate { record, verified } => {
                let nodes = vec![Some((43, 3)); verified.devices.len()];
                let backend = world.backends.get(&record.device).cloned();
                let allowed = authorize_recovery_deactivation(
                    &record,
                    &verified,
                    world.tree(),
                    &nodes,
                    Ok(backend),
                );
                let vg_name = record.attachment.vg_name.clone();
                Answer::Ran(allowed.and_then(|()| {
                    world.run_step(&PlannedStep::LvmDeactivate { vg_name }, None)
                }))
            }
            Action::Retire(volume) => Answer::Ran(world.retire(&volume)),
            Action::Stop(_) => return recovery.finish(),
            _ => panic!("a recovery asks for nothing else"),
        };
    }
}

fn same_record(a: &BoundDeviceRecord, b: &BoundDeviceRecord) -> bool {
    let same_intent = match (&a.recovery_intent, &b.recovery_intent) {
        (None, None) => true,
        (Some(a), Some(b)) => a.verified().matches(b.verified()),
        _ => false,
    };
    a.version == b.version
        && a.volume == b.volume
        && a.attachment == b.attachment
        && a.device == b.device
        && a.connection_id == b.connection_id
        && a.recovery == b.recovery
        && a.growth_target == b.growth_target
        && same_intent
}

fn kept(world: &World, record: &BoundDeviceRecord) -> bool {
    world.read("pg").is_some_and(|now| same_record(&now, record))
}

fn rollback_failures(error: &ExecError) -> Option<usize> {
    match error {
        ExecError::RolledBack { rollback_failed, .. } => Some(*rollback_failed),
        _ => None,
    }
}

// ---------- the preflight guards the activation ----------

#[test]
fn lvm_preflight_rejects_foreign_pv_before_activation() {
    let mut world = World { pv_name: Some("/dev/sda".into()), ..World::default() };
    let result = execute_with(&plan_attach(&request()), true, &mut world);
    assert!(result.is_err(), "foreign PV metadata was accepted");
    assert!(!world.steps.contains(&"lvm-activate"), "foreign PV reached vgchange");
    assert!(!world.steps.contains(&"mount-xfs"));
}

#[test]
fn lvm_preflight_rejects_a_forged_unbound_activation_plan() {
    let mut plan = plan_attach(&request());
    plan.steps.retain(|s| matches!(s, PlannedStep::LvmActivate { .. }));
    let mut world = World::default();
    assert!(execute_with(&plan, false, &mut world).is_err());
    assert!(world.steps.is_empty(), "unbound vgchange must have no execution path");
}

#[test]
fn lvm_preflight_failure_does_not_adopt_a_new_external_mapping_for_rollback() {
    for appeared in [false, true] {
        let mut world = World {
            pv_name: Some("/dev/sda".into()),
            mapping_during_preflight: appeared,
            ..World::default()
        };
        assert!(execute_with(&plan_attach(&request()), true, &mut world).is_err());
        assert!(!world.steps.contains(&"lvm-activate"));
        assert!(!world.steps.contains(&"lvm-deactivate"), "preflight never owned the mapping");
        assert_eq!(world.read("pg").is_some(), appeared);
        assert_eq!(world.steps.contains(&"nbd-disconnect"), !appeared);
    }
}

#[test]
fn lvm_preflight_cachevol_metadata_never_reaches_activation() {
    let mut world = World { lv_layout: Some("cache,cachevol".into()), ..World::default() };
    assert!(execute_with(&plan_attach(&request()), true, &mut world).is_err());
    assert!(!world.steps.contains(&"lvm-activate"));
}

// ---------- attach and detach ----------

#[test]
fn new_auto_and_fixed_attachments_record_and_verify_the_kernel_identifier() {
    for device in [AUTO_NBD_DEVICE, "/dev/nbd3"] {
        let mut world = World::default();
        let mut request = request();
        request.nbd_device = device.into();
        execute_with(&plan_attach(&request), true, &mut world).unwrap();
        let record = world.read("pg").unwrap();
        assert_eq!(record.device, "/dev/nbd3");
        assert_eq!(record.attachment.volume_uuid, request.volume_uuid);
        assert_eq!(world.backend(&record.device).unwrap(), Some(record.connection_id));
        world.steps.clear();
        execute_with(&plan_detach(&request), true, &mut world).unwrap();
        assert_eq!(world.steps, ["umount", "lvm-deactivate", "nbd-disconnect"]);
        assert!(world.read("pg").is_none());
        assert!(world.backends.is_empty());
    }
}

#[test]
fn missing_or_mismatched_identity_refuses_detach_before_any_command() {
    let mut world = World::default();
    let mut request = request();
    request.nbd_device = "/dev/nbd3".into();
    let error = execute_with(&plan_detach(&request), true, &mut world).unwrap_err();
    assert!(error.to_string().contains("no trusted attach record at /run/maki-attach/pg.nbd"));
    assert!(world.steps.is_empty(), "a pinned device must not bypass the record");
    execute_with(&plan_attach(&request), true, &mut world).unwrap();
    world.steps.clear();
    for field in ["volume_uuid", "nbd_socket", "nbd_device", "mountpoint", "vg_name", "lv_name"] {
        let mut changed = request.clone();
        match field {
            "volume_uuid" => changed.volume_uuid = FS_UUID.into(),
            "nbd_socket" => changed.nbd_socket = "/run/maki/other/nbd.sock".into(),
            "nbd_device" => changed.nbd_device = "/dev/nbd4".into(),
            "mountpoint" => changed.mountpoint = "/srv/other".into(),
            "vg_name" => changed.vg_name = "vg_other".into(),
            "lv_name" => changed.lv_name = "other".into(),
            _ => unreachable!(),
        }
        assert!(execute_with(&plan_detach(&changed), true, &mut world).is_err(), "{field}");
        assert!(world.steps.is_empty(), "{field}");
    }
    world.backends.insert("/dev/nbd3".into(), "reconnected-device".into());
    assert!(execute_with(&plan_detach(&request), true, &mut world).is_err());
    assert!(world.steps.is_empty());
}

#[test]
fn a_disconnected_stale_record_can_be_replaced_but_an_active_attachment_cannot() {
    let mut world = World::default();
    let mut request = request();
    request.nbd_device = "/dev/nbd3".into();
    execute_with(&plan_attach(&request), true, &mut world).unwrap();
    let before = world.read("pg").unwrap();
    world.steps.clear();
    assert!(execute_with(&plan_attach(&request), true, &mut world).is_err());
    assert!(world.steps.is_empty());
    assert!(kept(&world, &before));
    // A stale record can be replaced only when the volume is fully detached: no
    // backend, and no live mount, group or holder either.
    world.backends.clear();
    world.mounted = false;
    world.vg_active = false;
    execute_with(&plan_attach(&request), true, &mut world).unwrap();
    assert_ne!(world.read("pg").unwrap().connection_id, before.connection_id);
}

#[test]
fn readiness_failure_rolls_back_only_the_attachment_just_created() {
    let mut world = World { readiness_failure: true, ..World::default() };
    let error = execute_with(&plan_attach(&request()), true, &mut world).unwrap_err();
    assert_eq!(rollback_failures(&error), Some(0));
    assert_eq!(world.steps.last(), Some(&"nbd-disconnect"));
    assert!(world.backends.is_empty());
    assert!(world.read("pg").is_none());
}

#[test]
fn record_cleanup_error_keeps_the_original_rollback_result() {
    let mut world =
        World { readiness_failure: true, obstruct_record_cleanup: true, ..World::default() };
    let error = execute_with(&plan_attach(&request()), true, &mut world).unwrap_err();
    assert_eq!(rollback_failures(&error), Some(0), "{}", error.to_string());
    assert!(error.to_string().contains("fixture readiness timeout"));
    assert!(world.backends.is_empty());
}

#[test]
fn rollback_does_not_disconnect_a_replacement_connection() {
    let mut world =
        World { fail_at: Some("mount-xfs"), replace_on_failure: true, ..World::default() };
    let error = execute_with(&plan_attach(&request()), true, &mut world).unwrap_err();
    assert_eq!(rollback_failures(&error), Some(1));
    assert!(!world.steps.contains(&"nbd-disconnect"));
    assert_eq!(world.backends.get("/dev/nbd3").map(String::as_str), Some("other-connection"));
    assert!(world.read("pg").is_some());
}

#[test]
fn r3_foreign_backend_stops_every_rollback_mutation() {
    let mut world =
        World { fail_at: Some("mount-xfs"), replace_on_failure: true, ..World::default() };
    assert!(execute_with(&plan_attach(&request()), true, &mut world).is_err());
    assert!(world.read("pg").is_some());
    for forbidden in ["umount", "lvm-deactivate", "nbd-disconnect"] {
        assert!(
            !world.steps.contains(&forbidden),
            "backend ownership was lost, but rollback ran {forbidden}: {:?}",
            world.steps
        );
    }
}

fn assert_rollback_rechecks_backend_before_each_step(fault: BackendFault) {
    for (changed_after, expected) in [
        ("verify-mount-identity", vec![]),
        ("umount", vec!["umount"]),
        ("lvm-deactivate", vec!["umount", "lvm-deactivate"]),
    ] {
        let mut world = World {
            fail_at: Some("verify-mount-identity"),
            backend_fault_after: Some((changed_after, fault)),
            ..World::default()
        };
        let error = execute_with(&plan_attach(&request()), true, &mut world).unwrap_err();
        let destructive: Vec<_> = world
            .steps
            .iter()
            .copied()
            .filter(|step| matches!(*step, "umount" | "lvm-deactivate" | "nbd-disconnect"))
            .collect();
        assert_eq!(destructive, expected, "{fault:?} after {changed_after}");
        // Absence is safe only after all upper layers were already removed.
        let clean = matches!(fault, BackendFault::Missing) && expected.len() == 2;
        assert_eq!(
            rollback_failures(&error),
            Some(usize::from(!clean)),
            "{fault:?} after {changed_after}: {}",
            error.to_string()
        );
        assert_eq!(
            world.read("pg").is_none(),
            clean,
            "retain the recovery identity unless all resources are gone"
        );
        assert_eq!(world.mounted, expected.is_empty());
        assert_eq!(world.vg_active, expected.len() < 2);
        assert!(world.backends.contains_key("/dev/nbd3"));
    }
}

#[test]
fn r3_foreign_backend_is_rechecked_before_each_rollback_step() {
    assert_rollback_rechecks_backend_before_each_step(BackendFault::Foreign);
}

#[test]
fn r3_unreadable_backend_is_rechecked_before_each_rollback_step() {
    assert_rollback_rechecks_backend_before_each_step(BackendFault::Unreadable);
}

#[test]
fn r3_missing_backend_with_live_resources_stops_rollback() {
    assert_rollback_rechecks_backend_before_each_step(BackendFault::Missing);
}

#[test]
fn r3_absent_backend_without_live_resources_retires_record() {
    let mut world = World { fail_at: Some("nbd-connect"), ..World::default() };
    let error = execute_with(&plan_attach(&request()), true, &mut world).unwrap_err();
    assert_eq!(rollback_failures(&error), Some(0));
    assert!(!world
        .steps
        .iter()
        .any(|step| matches!(*step, "umount" | "lvm-deactivate" | "nbd-disconnect")));
    assert!(world.read("pg").is_none());
}

#[test]
fn detach_rechecks_identity_immediately_before_disconnect() {
    let mut world = World::default();
    execute_with(&plan_attach(&request()), true, &mut world).unwrap();
    world.steps.clear();
    world.replace_after_deactivate = true;
    assert!(execute_with(&plan_detach(&request()), true, &mut world).is_err());
    assert_eq!(world.steps, ["umount", "lvm-deactivate"]);
    assert_eq!(world.backends.get("/dev/nbd3").map(String::as_str), Some("other-connection"));
}

#[test]
fn partial_detach_retry_resumes_after_completed_unmount_and_deactivation() {
    for failure in ["lvm-deactivate", "nbd-disconnect"] {
        let mut world = World::default();
        execute_with(&plan_attach(&request()), true, &mut world).unwrap();
        world.fail_at = Some(failure);
        assert!(execute_with(&plan_detach(&request()), true, &mut world).is_err());
        assert!(!world.mounted);
        assert!(world.read("pg").is_some());
        world.steps.clear();
        world.fail_at = None;
        execute_with(&plan_detach(&request()), true, &mut world)
            .unwrap_or_else(|error| panic!("retry after {failure}: {}", error.to_string()));
        assert_eq!(
            world.steps,
            if failure == "lvm-deactivate" {
                vec!["lvm-deactivate", "nbd-disconnect"]
            } else {
                vec!["nbd-disconnect"]
            }
        );
        assert!(!world.vg_active);
        assert!(world.backends.is_empty());
        assert!(world.read("pg").is_none());
    }
}

#[test]
fn completed_detach_retry_retires_record_without_repeating_commands() {
    let mut world = World::default();
    execute_with(&plan_attach(&request()), true, &mut world).unwrap();
    let record = world.read("pg").unwrap();
    execute_with(&plan_detach(&request()), true, &mut world).unwrap();
    // Model process death after the kernel disconnect but before record retirement.
    world.write(record).unwrap();
    world.steps.clear();
    execute_with(&plan_detach(&request()), true, &mut world).unwrap();
    assert!(world.steps.is_empty());
    assert!(world.read("pg").is_none());
}

#[test]
fn detach_retry_handles_commands_that_fail_after_completing_their_effect() {
    for failure in ["umount", "lvm-deactivate", "nbd-disconnect"] {
        let mut world = World::default();
        execute_with(&plan_attach(&request()), true, &mut world).unwrap();
        world.fail_after_at = Some(failure);
        assert!(execute_with(&plan_detach(&request()), true, &mut world).is_err());
        assert!(world.read("pg").is_some());
        world.fail_after_at = None;
        world.steps.clear();
        execute_with(&plan_detach(&request()), true, &mut world).unwrap();
        assert_eq!(
            world.steps,
            match failure {
                "umount" => vec!["lvm-deactivate", "nbd-disconnect"],
                "lvm-deactivate" => vec!["nbd-disconnect"],
                _ => vec![],
            }
        );
        assert!(world.read("pg").is_none());
        assert!(world.backends.is_empty());
    }
}

#[test]
fn detach_refuses_changed_incomplete_or_unreadable_state_before_any_command() {
    for case in ["mount", "vg", "disconnected", "probe", "holders"] {
        let mut world = World::default();
        execute_with(&plan_attach(&request()), true, &mut world).unwrap();
        world.steps.clear();
        match case {
            "mount" => world.foreign_mount = true,
            "vg" => world.foreign_vg = true,
            "disconnected" => world.backends.clear(),
            "probe" => world.observation_error = true,
            "holders" => {
                world.mounted = false;
                world.vg_active = false;
                world.extra_holders = true;
            }
            _ => unreachable!(),
        }
        assert!(execute_with(&plan_detach(&request()), true, &mut world).is_err(), "{case}");
        assert!(world.steps.is_empty(), "{case}");
        assert!(world.read("pg").is_some());
    }
}

// ---------- growth ----------

#[test]
fn review_next_grow_requires_trusted_attachment_before_commands() {
    let mut world = World::default();
    // No attach record for this volume.
    assert!(execute_with(&plan_grow(&grow_request()), true, &mut world).is_err());
    assert!(world.steps.is_empty(), "grow ran commands without a trusted attach record");
    // The attach state lock is mandatory for a grow.
    let mut world = World::default();
    assert!(execute_with(&plan_grow(&grow_request()), false, &mut world).is_err());
    assert!(world.steps.is_empty());
}

#[test]
fn review_next_grow_rejects_reused_backend_and_changed_targets() {
    let mut world = World::default();
    execute_with(&plan_attach(&request()), true, &mut world).unwrap();
    world.steps.clear();

    // Changed targets: a different VG/LV/mountpoint does not match.
    let mutations: [fn(&mut GrowRequest); 3] = [
        |g| g.vg_name = "vg_other".into(),
        |g| g.lv_name = "other".into(),
        |g| g.mountpoint = "/srv/other".into(),
    ];
    for mutate in mutations {
        let mut changed = grow_request();
        mutate(&mut changed);
        assert!(execute_with(&plan_grow(&changed), true, &mut world).is_err());
        assert!(world.steps.is_empty(), "a changed-target grow ran commands");
    }
    // So does a different volume UUID, where the plan names its attachment.
    let mut plan = plan_grow(&grow_request());
    let mut identity = AttachmentIdentity::of_request(&request());
    identity.volume_uuid = "11111111-2222-4333-8444-555555555555".into();
    plan.attachment = Some(identity);
    assert!(execute_with(&plan, true, &mut world).is_err());
    assert!(world.steps.is_empty(), "a changed-target grow ran commands");

    // Reused backend: the device now carries a different connection identity.
    world.backends.insert("/dev/nbd3".into(), "reconnected-other".into());
    assert!(execute_with(&plan_grow(&grow_request()), true, &mut world).is_err());
    assert!(world.steps.is_empty());

    // A matching grow of the live attachment runs both commands.
    let live = world.read("pg").unwrap().connection_id;
    world.backends.insert("/dev/nbd3".into(), live);
    execute_with(&plan_grow(&grow_request()), true, &mut world).unwrap();
    assert_eq!(world.steps, ["lvextend", "xfs-growfs"]);
    plan.attachment = Some(AttachmentIdentity::of_request(&request()));
    world.steps.clear();
    execute_with(&plan, true, &mut world).unwrap();
    assert_eq!(world.steps, ["lvextend", "xfs-growfs"]);
    // The record is retained: a grow is not a detach.
    assert!(world.read("pg").is_some());
}

#[test]
fn audit_20260907_failed_unmount_must_not_disconnect_live_mount() {
    let mut world = World {
        fail_after_at: Some("verify-mount-identity"),
        fail_at: Some("umount"),
        ..World::default()
    };
    assert!(execute_with(&plan_attach(&request()), true, &mut world).is_err());
    assert!(world.mounted, "the injected umount failed before its effect");
    assert!(
        !world.steps.contains(&"nbd-disconnect"),
        "rollback attempted NBD disconnect after failed umount: {:?}",
        world.steps
    );
    assert!(world.backends.contains_key("/dev/nbd3"));
    assert!(world.read("pg").is_some());
}

#[test]
fn audit_20260907_mount_failure_after_effect_requires_reobservation() {
    let mut world = World { fail_after_at: Some("mount-xfs"), ..World::default() };
    assert!(execute_with(&plan_attach(&request()), true, &mut world).is_err());
    // Either verified cleanup removes the mount, or its live backing must stay.
    assert!(
        !world.mounted || world.backends.contains_key("/dev/nbd3"),
        "failed mount command had an effect but rollback disconnected it: {:?}",
        world.steps
    );
}

#[test]
fn audit_20260907_grow_rechecks_live_mount_and_vg_topology() {
    for fault in 0..3 {
        let mut world = World::default();
        execute_with(&plan_attach(&request()), true, &mut world).unwrap();
        world.steps.clear();
        match fault {
            0 => world.foreign_mount = true,
            1 => world.foreign_vg = true,
            _ => world.observation_error = true,
        }
        // The trusted config and live NBD identifier are unchanged. Only the
        // currently mounted filesystem / active mapping became unsafe.
        let result = execute_with(&plan_grow(&grow_request()), true, &mut world);
        assert!(result.is_err(), "grow accepted live topology fault {fault}");
        assert!(
            !world.steps.contains(&"lvextend") && !world.steps.contains(&"xfs-growfs"),
            "grow changed storage before rejecting fault {fault}: {:?}",
            world.steps
        );
    }
}

#[test]
fn followup_observation_failure_after_activation_must_not_disconnect() {
    let mut world = World {
        fail_after_at: Some("lvm-activate"),
        observation_error_after: Some("lvm-activate"),
        ..World::default()
    };
    assert!(execute_with(&plan_attach(&request()), true, &mut world).is_err());
    assert!(world.vg_active, "fixture must leave activation in effect");
    assert!(
        !world.steps.contains(&"nbd-disconnect"),
        "unknown mappings must block lower teardown: {:?}",
        world.steps
    );
    assert!(world.read("pg").is_some(), "preserve recovery provenance");
}

#[test]
fn followup_stale_backend_with_live_mapping_must_not_replace_record() {
    let mut world = World::default();
    execute_with(&plan_attach(&request()), true, &mut world).unwrap();
    let old = world.read("pg").unwrap();
    world.backends.clear();
    world.steps.clear();
    assert!(world.mounted && world.vg_active);
    assert!(execute_with(&plan_attach(&request()), true, &mut world).is_err());
    assert!(
        world.steps.is_empty(),
        "reattach must not mutate an incompletely detached volume: {:?}",
        world.steps
    );
    assert!(kept(&world, &old));
}

#[test]
fn followup_grow_requires_a_live_mount_before_extending_lv() {
    let mut world = World::default();
    execute_with(&plan_attach(&request()), true, &mut world).unwrap();
    world.mounted = false;
    world.steps.clear();
    assert!(execute_with(&plan_grow(&grow_request()), true, &mut world).is_err());
    assert!(
        world.steps.is_empty(),
        "missing mount must be rejected before lvextend: {:?}",
        world.steps
    );
}

#[test]
fn growth_rechecks_ownership_between_lv_and_filesystem_changes() {
    let mut world = World::default();
    execute_with(&plan_attach(&request()), true, &mut world).unwrap();
    world.steps.clear();
    world.backend_fault_after = Some(("lvextend", BackendFault::Foreign));
    assert!(execute_with(&plan_grow(&grow_request()), true, &mut world).is_err());
    assert_eq!(
        world.steps,
        ["lvextend"],
        "filesystem change must re-check live ownership"
    );
}

#[test]
fn growth_retry_does_not_apply_an_increase_twice() {
    for failure in ["lvextend", "xfs-growfs"] {
        let mut world = World { lv_size: 1 << 30, ..World::default() };
        execute_with(&plan_attach(&request()), true, &mut world).unwrap();
        let plan = plan_grow(&grow_request());
        world.fail_after_at = Some(failure);
        assert!(execute_with(&plan, true, &mut world).is_err());
        world.fail_after_at = None;
        execute_with(&plan, true, &mut world).unwrap();
        assert_eq!(
            world.lv_size,
            2 << 30,
            "retry after {failure} must reuse the same absolute target"
        );
    }
}

#[test]
fn a_growth_keeps_its_target_until_it_is_done() {
    let mut world = World { lv_size: 1 << 30, fail_at: Some("lvextend"), ..World::default() };
    execute_with(&plan_attach(&request()), true, &mut world).unwrap();
    let plan = plan_grow(&grow_request());
    assert!(execute_with(&plan, true, &mut world).is_err());
    assert_eq!(world.read("pg").unwrap().growth_target, Some(2 << 30));
    // The volume was not extended, so the retry extends it.
    world.fail_at = None;
    world.steps.clear();
    execute_with(&plan, true, &mut world).unwrap();
    assert_eq!(world.steps, ["lvextend", "xfs-growfs"]);
    assert_eq!(world.lv_size, 2 << 30);
    assert_eq!(world.read("pg").unwrap().growth_target, None);
    // A later growth starts from the new size.
    execute_with(&plan, true, &mut world).unwrap();
    assert_eq!(world.lv_size, 3 << 30);
    // A retry that finds the volume extended only enlarges the filesystem.
    world.fail_after_at = Some("lvextend");
    assert!(execute_with(&plan, true, &mut world).is_err());
    assert_eq!(world.lv_size, 4 << 30);
    world.fail_after_at = None;
    world.steps.clear();
    execute_with(&plan, true, &mut world).unwrap();
    assert_eq!(world.steps, ["xfs-growfs"]);
    assert_eq!(world.lv_size, 4 << 30);
}

#[test]
fn a_growth_beyond_every_size_is_refused() {
    let mut world = World { lv_size: u64::MAX, ..World::default() };
    execute_with(&plan_attach(&request()), true, &mut world).unwrap();
    world.steps.clear();
    let error = execute_with(&plan_grow(&grow_request()), true, &mut world).unwrap_err();
    assert!(error.to_string().contains("cannot grow by that many bytes"), "{}", error.to_string());
    assert!(world.steps.is_empty());
    assert_eq!(world.read("pg").unwrap().growth_target, None);
}

#[test]
fn sizes_are_read_and_set_in_bytes() {
    assert_eq!(choose_target(None, 1 << 30, 1 << 30), Some(2 << 30));
    assert_eq!(choose_target(Some(2 << 30), 2 << 30, 1 << 30), Some(2 << 30));
    assert_eq!(choose_target(None, u64::MAX, 1), None);
    assert_eq!(extension_arguments("vg", "data", 2048), ["-L", "2048b", "vg/data"]);
    assert_eq!(size_arguments("vg", "data"), ["--getsize64", "/dev/vg/data"]);
    assert_eq!(printed_size(true, &b"1073741824\n".to_vec()), Ok(1 << 30));
    for (success, stdout) in [(false, "1\n"), (true, "\n"), (true, "-1\n"), (true, "1G\n")] {
        let error = printed_size(success, &stdout.as_bytes().to_vec()).unwrap_err();
        assert_eq!(error, "could not read the volume size");
    }
}

// ---------- the filesystem is verified around its mount ----------

fn filesystem_fixture() -> (AttachRequest, World) {
    let mut req = request();
    req.fs_uuid = Some(FS_UUID.into());
    req.init_sentinel = true;
    let world = World {
        filesystem_type: Some("xfs"),
        filesystem_uuid: Some(FS_UUID.into()),
        verify_identity: true,
        ..World::observed()
    };
    (req, world)
}

fn assert_mount_was_not_attempted(world: &World) {
    assert!(
        !world.steps.contains(&"mount-xfs"),
        "filesystem rejection happened after mount: {:?}",
        world.steps
    );
    assert!(world.sentinel.is_none());
    assert_eq!(world.rw_probes, 0);
}

#[test]
fn mismatched_filesystem_uuid_refuses_before_mount_or_sentinel_write() {
    let (req, mut world) = filesystem_fixture();
    world.filesystem_uuid = Some(OTHER_UUID.into());
    let error = execute_with(&plan_attach(&req), true, &mut world).unwrap_err();
    assert!(error.to_string().contains("filesystem UUID mismatch"), "{}", error.to_string());
    assert_mount_was_not_attempted(&world);
}

#[test]
fn non_xfs_filesystem_refuses_before_mount_even_without_uuid_pin() {
    let (mut req, mut world) = filesystem_fixture();
    req.fs_uuid = None;
    world.filesystem_type = Some("ext4");
    let error = execute_with(&plan_attach(&req), true, &mut world).unwrap_err();
    assert!(error.to_string().contains("is not XFS"), "{}", error.to_string());
    assert_mount_was_not_attempted(&world);
}

#[test]
fn matching_filesystem_and_optional_uuid_contract_still_attach() {
    for pinned in [true, false] {
        let (mut req, mut world) = filesystem_fixture();
        if !pinned {
            req.fs_uuid = None;
            world.filesystem_uuid = None;
        }
        execute_with(&plan_attach(&req), true, &mut world).unwrap();
        assert_eq!(world.filesystem_probes, 1);
        assert_eq!(world.rw_probes, 1);
        assert_eq!(world.sentinel, Some(req.volume_uuid.clone()));
        assert!(world.mounted);
        assert!(world.read("pg").unwrap().recovery.is_some());
    }
}

#[test]
fn missing_pinned_uuid_and_failed_or_ambiguous_probes_never_mount() {
    for (status, stdout) in [
        (0, "TYPE=xfs\n".to_string()),
        (2, "TYPE=xfs\n".to_string()),
        (4, "TYPE=xfs\n".to_string()),
        (8, format!("TYPE=xfs\nUUID={FS_UUID}\n")),
    ] {
        let (req, mut world) = filesystem_fixture();
        world.probe_override = Some((status == 0, stdout.into_bytes()));
        assert!(execute_with(&plan_attach(&req), true, &mut world).is_err());
        assert_eq!(world.filesystem_probes, 1);
        assert_mount_was_not_attempted(&world);
        assert!(world.read("pg").is_none());
    }
}

#[test]
fn changed_backend_during_filesystem_probe_never_mounts_or_cleans_foreign_state() {
    let (req, mut world) = filesystem_fixture();
    world.backend_fault_after = Some(("verify-filesystem-identity", BackendFault::Foreign));
    assert!(execute_with(&plan_attach(&req), true, &mut world).is_err());
    assert_eq!(world.filesystem_probes, 1);
    assert_mount_was_not_attempted(&world);
    assert!(world.read("pg").is_some());
    assert!(!world.steps.contains(&"lvm-deactivate"));
    assert!(!world.steps.contains(&"nbd-disconnect"));
}

#[test]
fn mapping_identity_is_checked_before_and_after_the_filesystem_probe() {
    for replace_before in [true, false] {
        let (req, mut world) = filesystem_fixture();
        world.replace_mapping_before_probe = replace_before;
        world.replace_mapping_after_probe = !replace_before;
        assert!(execute_with(&plan_attach(&req), true, &mut world).is_err());
        assert_eq!(world.filesystem_probes, usize::from(!replace_before));
        assert_mount_was_not_attempted(&world);
        assert!(world.read("pg").is_some());
        assert!(!world.steps.contains(&"lvm-deactivate"));
        assert!(!world.steps.contains(&"nbd-disconnect"));
    }
}

#[test]
fn a_mount_on_another_disk_never_gets_a_sentinel() {
    let (req, mut world) = filesystem_fixture();
    world.foreign_backing = true;
    let error = execute_with(&plan_attach(&req), true, &mut world).unwrap_err();
    assert!(
        error.to_string().contains("is not stored only on /dev/nbd3"),
        "{}",
        error.to_string()
    );
    assert!(world.steps.contains(&"mount-xfs"));
    assert!(!world.steps.contains(&"write-sentinel"));
    assert!(world.sentinel.is_none());
    assert_eq!(world.rw_probes, 0);
    assert!(!world.mounted && world.read("pg").is_none());
}

#[test]
fn what_cannot_be_read_ends_the_run() {
    for (what, mounts) in [("filesystem", false), ("mount", true)] {
        let (req, mut world) = filesystem_fixture();
        world.unreadable = Some(what);
        let error = execute_with(&plan_attach(&req), true, &mut world).unwrap_err();
        let complaint = format!("fixture {what} unreadable");
        assert!(error.to_string().contains(&complaint), "{}", error.to_string());
        assert_eq!(world.steps.contains(&"mount-xfs"), mounts);
        assert!(world.sentinel.is_none() && !world.mounted && world.read("pg").is_none());
    }
    let mut world = World { unreadable: Some("size"), ..World::default() };
    execute_with(&plan_attach(&request()), true, &mut world).unwrap();
    world.steps.clear();
    let error = execute_with(&plan_grow(&grow_request()), true, &mut world).unwrap_err();
    assert!(error.to_string().contains("fixture size unreadable"), "{}", error.to_string());
    assert!(world.steps.is_empty());
}

#[test]
fn plans_that_skip_a_verification_are_taken_back() {
    let (req, _) = filesystem_fixture();
    let attach = plan_attach(&req);
    for (dropped, complaint) in [
        ("lvm-activate", "a mount requires a verified volume group"),
        ("mount-xfs", "a sentinel requires a verified mount"),
    ] {
        let (_, mut world) = filesystem_fixture();
        let plan = Plan {
            description: attach.description.clone(),
            volume: attach.volume.clone(),
            attachment: attach.attachment.clone(),
            steps: attach.steps.iter().filter(|s| s.kind() != dropped).cloned().collect(),
        };
        let error = execute_with(&plan, true, &mut world).unwrap_err();
        assert!(error.to_string().contains(complaint), "{}", error.to_string());
        assert!(world.sentinel.is_none() && !world.mounted && world.backends.is_empty());
        assert!(world.read("pg").is_none());
    }
}

// ---------- the real observers ----------

#[test]
fn review_next_attach_rejects_a_logical_volume_backed_by_an_unrelated_disk() {
    let mut world = World::observed();
    world.set("nbd3/dev", "43:96\n");
    world.set("dm-0/dev", "253:0\n");
    world.set("dm-0/dm/name", "vg_maki_pg-data\n");
    world.set("dm-0/dm/uuid", "LVM-fixture\n");
    world.set("dm-0/slaves/sda", "");
    world.entry("sda").slaves = Some(vec![]);
    let mut request = request();
    request.init_sentinel = true;
    // fs_uuid is unpinned, as in the default first-boot configuration. The
    // configured VG/LV resolves to a local-disk mapping, not our NBD export.
    assert!(request.fs_uuid.is_none());
    world.mountinfo = Some(format!(
        "50 1 253:0 / {} rw - xfs /dev/mapper/vg_maki_pg-data rw\n",
        request.mountpoint
    ));
    let expected_record = BoundDeviceRecord {
        version: 1,
        volume: request.volume.clone(),
        attachment: AttachmentIdentity::of_request(&request),
        device: "/dev/nbd3".into(),
        connection_id: "maki-fixture".into(),
        recovery: None,
        recovery_intent: None,
        growth_target: None,
    };
    // Positive control: the topology observer rejects this exact mapping, and
    // its leaf is the unrelated local disk.
    let topology_error = world.detach_observation(&expected_record, false).unwrap_err();
    assert!(
        topology_error.contains("not backed exclusively by the recorded NBD device"),
        "{topology_error}"
    );
    assert_eq!(
        world.observe_mount(&request.mountpoint, "/dev/nbd3").backing_devices,
        ["/dev/sda"]
    );
    assert_eq!(backing_devices(world.tree(), "253:0"), ["/dev/sda"]);

    let result = execute_with(&plan_attach(&request), true, &mut world);
    assert!(
        !world.steps.contains(&"nbd-connect"),
        "foreign topology must fail before connecting"
    );
    assert!(
        result.is_err() && world.sentinel.is_none(),
        "attach accepted/initialized a non-NBD filesystem: {result:?}; commands={:?}",
        world.steps
    );
}

fn mount_failure_after_effect(existing_sentinel: bool) {
    let mut req = request();
    req.init_sentinel = true;
    let mut world = World { fail_after_at: Some("mount-xfs"), ..World::observed() };
    if existing_sentinel {
        world.sentinel = Some(req.volume_uuid.clone());
    }
    let result = execute_with(&plan_attach(&req), true, &mut world);
    assert!(result.is_err(), "must inject failure after mount effect");
    assert!(
        !world.mounted
            && !world.vg_active
            && world.backends.is_empty()
            && world.read("pg").is_none(),
        "first-attach rollback must recover its own verified mount even before sentinel publication"
    );
}

#[test]
fn existing_sentinel_allows_real_observer_rollback() {
    mount_failure_after_effect(true);
}

#[test]
fn missing_initial_sentinel_does_not_strand_our_mount() {
    mount_failure_after_effect(false);
}

#[test]
fn lvm_preflight_wrong_activated_uuid_cannot_authorize_rollback_deactivation() {
    let mut world = World { wrong_activation_uuid: true, ..World::observed() };
    let result = execute_with(&plan_attach(&request()), true, &mut world);
    assert!(result.is_err());
    assert!(world.steps.contains(&"lvm-activate"), "fixture must reach activation");
    assert!(
        !world.steps.contains(&"lvm-deactivate"),
        "wrong UUID must not authorize VG deactivation"
    );
    assert!(!world.steps.contains(&"mount-xfs") && !world.steps.contains(&"umount"));
    assert!(world.read("pg").is_some(), "retain record for unresolved live mapping");
}

#[test]
fn a_new_attach_does_not_adopt_unrecorded_live_resources() {
    for layer in ["mount", "vg", "holder"] {
        let mut req = request();
        req.nbd_device = "/dev/nbd3".into();
        req.init_sentinel = true;
        let mut world = World {
            mounted: layer == "mount",
            vg_active: layer == "vg",
            extra_holders: layer == "holder",
            ..World::default()
        };
        let result = execute_with(&plan_attach(&req), true, &mut world);
        assert!(result.is_err(), "adopted unrecorded {layer}");
        assert!(world.steps.is_empty(), "modified unrecorded {layer}: {:?}", world.steps);
        assert!(world.read("pg").is_none());
    }
}

// ---------- recovery ----------

#[test]
fn recovery_backend_probe_rejects_unknown_pid_metadata() {
    let backend = |backend: Attribute, pid: Attribute| nbd_backend("/dev/nbd3", &backend, &pid);
    assert_eq!(backend(Attribute::Missing, Attribute::Missing).unwrap(), None);
    assert!(
        backend(Attribute::Missing, Attribute::Failed("loop".into())).is_err(),
        "an unreadable PID attribute is not proof of disconnection"
    );
    assert!(backend(Attribute::Missing, Attribute::Text("1234\n".into())).is_err());
    assert_eq!(
        backend(Attribute::Text("maki-test-identity\n".into()), Attribute::Text("1234\n".into()))
            .unwrap()
            .as_deref(),
        Some("maki-test-identity")
    );
    assert!(backend(Attribute::Failed("denied".into()), Attribute::Missing).is_err());
    assert!(nbd_backend("/dev/sda", &Attribute::Missing, &Attribute::Missing).is_err());
}

fn attached() -> (AttachRequest, World) {
    let req = request();
    let mut world = World { sentinel: Some(req.volume_uuid.clone()), ..World::observed() };
    execute_with(&plan_attach(&req), true, &mut world).unwrap();
    world.steps.clear();
    world.backends.clear();
    (req, world)
}

fn activation_crashed() -> (AttachRequest, World) {
    let req = request();
    let mut world = World { process_death_after_activation: true, ..World::observed() };
    assert!(
        drive(&plan_attach(&req), true, &mut world).is_none(),
        "fixture must stop between activation and proof"
    );
    let record = world.read("pg").unwrap();
    assert!(
        record.recovery_intent.is_some(),
        "verified pre-activation identity was not durably published"
    );
    assert!(record.recovery.is_none());
    assert!(world.vg_active);
    world.process_death_after_activation = false;
    world.steps.clear();
    world.backends.clear();
    (req, world)
}

#[test]
fn recovery_uses_persisted_pre_activation_identity_after_process_death() {
    let (req, mut world) = activation_crashed();
    recover_with(&plan_detach(&req), &mut world).unwrap();
    assert_eq!(world.steps, ["lvm-deactivate"]);
    assert!(world.read("pg").is_none());
}

#[test]
fn completed_activation_promotes_intent_to_recovery_proof() {
    let (_req, world) = attached();
    let record = world.read("pg").unwrap();
    assert!(record.recovery.is_some());
    assert!(
        record.recovery_intent.is_none(),
        "completed records must not retain the transient intent"
    );
}

#[test]
fn persisted_recovery_intent_rejects_noncanonical_device_paths() {
    let (_req, world) = activation_crashed();
    let mut record = world.read("pg").unwrap();
    assert!(record.validate().is_ok());
    record.recovery_intent.as_mut().unwrap().verified.devices[0].path =
        "/dev/../../etc/passwd".into();
    assert!(
        record.validate().is_err(),
        "persisted recovery command inputs must be revalidated"
    );
}

#[test]
fn pre_activation_recovery_intent_rejects_changed_identity_without_mutation() {
    for (path, value) in [
        ("dm-0/dm/name", "vg_foreign-data\n"),
        ("dm-0/dm/uuid", "LVM-another-volume\n"),
        ("nbd3/dev", "43:9\n"),
        ("dm-0/slaves/nbd4", ""),
        ("nbd3/holders/dm-99", ""),
    ] {
        let (req, mut world) = activation_crashed();
        let record = world.read("pg").unwrap();
        world.set(path, value);
        let result = recover_with(&plan_detach(&req), &mut world);
        assert!(result.is_err(), "accepted changed identity at {path}");
        assert!(world.steps.is_empty(), "mutated after {path}");
        assert!(kept(&world, &record));
    }
}

#[test]
fn pre_activation_recovery_intent_never_authorizes_an_upper_layer() {
    let (req, mut world) = activation_crashed();
    let record = world.read("pg").unwrap();
    world.mounted = true;
    assert!(recover_with(&plan_detach(&req), &mut world).is_err());
    assert!(world.steps.is_empty());
    assert!(kept(&world, &record));
}

#[test]
fn recovery_removes_owned_mappings_after_backend_crash() {
    let (req, mut world) = attached();
    let result = recover_with(&plan_detach(&req), &mut world);
    assert!(result.is_ok(), "recover left our crashed attachment stranded: {result:?}");
    assert_eq!(world.steps, ["umount", "lvm-deactivate"]);
    assert!(world.read("pg").is_none());
}

#[test]
fn recovery_does_not_need_a_sentinel_on_the_dead_filesystem() {
    let (req, mut world) = attached();
    world.sentinel = None;
    let result = recover_with(&plan_detach(&req), &mut world);
    assert!(result.is_ok(), "recovery touched or required the dead sentinel: {result:?}");
    assert_eq!(world.steps, ["umount", "lvm-deactivate"]);
}

#[test]
fn recovery_rejects_a_live_backend_without_cleanup() {
    let (req, mut world) = attached();
    let record = world.read("pg").unwrap();
    world.backends.insert(record.device.clone(), record.connection_id.clone());
    let error = recover_with(&plan_detach(&req), &mut world).unwrap_err();
    assert!(error.to_string().contains("use detach for a live attachment"));
    assert!(world.steps.is_empty());
    assert!(kept(&world, &record));
}

#[test]
fn recovery_checks_backend_absence_around_every_observation() {
    for probe in 1..=6 {
        for fault in [BackendFault::Foreign, BackendFault::Unreadable] {
            let (req, mut world) = attached();
            let record = world.read("pg").unwrap();
            world.backend_probes = 0;
            world.backend_fault_on_probe = Some((probe, fault));
            let result = recover_with(&plan_detach(&req), &mut world);
            assert!(result.is_err(), "probe {probe}, {fault:?}: {result:?}");
            assert_eq!(world.steps.len(), (probe - 1) / 2, "probe {probe}, {fault:?}");
            assert!(!world.steps.contains(&"nbd-disconnect"));
            assert!(kept(&world, &record));
        }
    }
}

#[test]
fn recovery_rejects_changed_kernel_identities_without_cleanup() {
    for (path, value) in [
        ("dm-0/dm/uuid", "LVM-another-volume\n"),
        ("dm-0/dm/name", "vg_maki_foreign-data\n"),
        ("dm-0/dev", "253:9\n"),
        ("nbd3/dev", "43:9\n"),
        ("dm-0/slaves/nbd4", ""),
        ("nbd3/holders/dm-99", ""),
    ] {
        let (req, mut world) = attached();
        let record = world.read("pg").unwrap();
        world.set(path, value);
        assert!(recover_with(&plan_detach(&req), &mut world).is_err(), "accepted {path}");
        assert!(world.steps.is_empty(), "mutated after {path}");
        assert!(kept(&world, &record));
    }
}

#[test]
fn recovery_rejects_incomplete_dependency_observation() {
    let (req, mut world) = attached();
    let record = world.read("pg").unwrap();
    world.entry("nbd3").holders = Some(vec![]);
    assert!(
        recover_with(&plan_detach(&req), &mut world).is_err(),
        "accepted a slave edge with no matching holder during topology change"
    );
    assert!(world.steps.is_empty());
    assert!(kept(&world, &record));
}

#[test]
fn recovery_retains_identity_when_cleanup_fails_before_or_after_its_effect() {
    for step in ["umount", "lvm-deactivate"] {
        for after_effect in [false, true] {
            let (req, mut world) = attached();
            let record = world.read("pg").unwrap();
            if after_effect {
                world.fail_after_at = Some(step);
            } else {
                world.fail_at = Some(step);
            }
            assert!(recover_with(&plan_detach(&req), &mut world).is_err());
            assert!(kept(&world, &record));
            world.fail_at = None;
            world.fail_after_at = None;
            world.steps.clear();
            recover_with(&plan_detach(&req), &mut world).unwrap();
            assert_eq!(
                world.steps,
                match (step, after_effect) {
                    ("umount", false) => vec!["umount", "lvm-deactivate"],
                    ("umount", true) | ("lvm-deactivate", false) => vec!["lvm-deactivate"],
                    _ => vec![],
                }
            );
            assert!(world.read("pg").is_none());
        }
    }
}

#[test]
fn legacy_record_without_proof_or_intent_remains_fail_closed() {
    let (req, mut world) = attached();
    // This is the durable state left by a crash between VG activation and the
    // atomic proof write. It cannot authorize cleanup of the active mapping.
    let mut record = world.read("pg").unwrap();
    record.recovery = None;
    world.write(record.clone()).unwrap();
    world.mounted = false;
    assert!(recover_with(&plan_detach(&req), &mut world).is_err());
    assert!(world.steps.is_empty());
    assert!(kept(&world, &record));
}

#[test]
fn recovery_refuses_an_extra_mount_and_never_reads_the_sentinel() {
    let (_req, world) = attached();
    let record = world.read("pg").unwrap();
    let mounts = format!(
        "{}41 25 253:0 /subdir /container/data rw - xfs /dev/mapper/vg_maki_pg-data rw\n",
        world.mounts(&record)
    );
    assert!(observe(&record, &mounts, world.tree()).is_err());
    assert!(observe(&record, &world.mounts(&record), world.tree()).unwrap().mounted);
}

#[test]
fn recovery_needs_the_record_and_its_own_configuration() {
    let (req, mut world) = attached();
    let mut changed = req.clone();
    changed.mountpoint = "/srv/other".into();
    let error = recover_with(&plan_detach(&changed), &mut world).unwrap_err();
    assert!(error.to_string().contains("does not match the trusted attachment"));
    world.records.clear();
    let error = recover_with(&plan_detach(&req), &mut world).unwrap_err();
    assert!(error.to_string().contains("no trusted attachment to recover"));
    assert!(world.steps.is_empty());
}

#[test]
fn recovery_gives_up_when_layers_keep_coming_back() {
    let (req, world) = attached();
    let mut recovery = Recovery::start(&plan_detach(&req), Ok(world.read("pg"))).unwrap();
    let live = DetachObservation { mounted: true, vg_active: true, nbd_in_use: true };
    let mut answer = Answer::Start;
    let mut unmounts = 0;
    loop {
        answer = match recovery.resume(answer) {
            Action::Probe(_) => Answer::Backend(Ok(None)),
            Action::Observe { .. } => Answer::Observed(Ok(live)),
            Action::Run { .. } => {
                unmounts += 1;
                Answer::Ran(Ok(()))
            }
            Action::Stop(_) => break,
            _ => panic!("nothing else is asked for"),
        };
    }
    assert_eq!(unmounts, 4);
    assert!(recovery.finish().unwrap_err().to_string().contains("did not converge"));
}

// ---------- direct removal ----------

/// Drive a direct removal; `fault` changes the machine before the given number
/// of actions.
fn remove_with(world: &mut World, fault: Option<(usize, fn(&mut World))>) -> Result<(), ExecError> {
    let mut removal = Removal::start(world.read("pg").unwrap());
    let mut reply = maki::recovery::Reply::Start;
    let mut actions = 0;
    loop {
        let deed = removal.resume(reply);
        actions += 1;
        if let Some((at, change)) = fault {
            if at == actions {
                change(world);
            }
        }
        reply = match deed {
            Deed::Probe(device) => maki::recovery::Reply::Backend(world.backend(&device)),
            Deed::Find(record) => {
                let mounts = world.mounts(&record);
                let found = force_deactivation_target_at(&record, &mounts, world.tree());
                maki::recovery::Reply::Target(found.map_err(|e| e.to_string()))
            }
            Deed::Query(_) => maki::recovery::Reply::Confirmed(Ok(())),
            Deed::Remove(name) => {
                assert_eq!(name, "vg_maki_pg-data");
                world.steps.push("dmsetup-remove");
                world.vg_active = false;
                world.update_tree();
                maki::recovery::Reply::Removed(Ok((true, Some(0))))
            }
            Deed::Stop => return removal.finish(),
        };
    }
}

fn connected_mapping() -> World {
    let (_req, mut world) = attached();
    let record = world.read("pg").unwrap();
    world.backends.insert(record.device.clone(), record.connection_id.clone());
    world.mounted = false;
    world
}

#[test]
fn a_direct_removal_removes_exactly_the_proven_mapping() {
    let mut world = connected_mapping();
    remove_with(&mut world, None).unwrap();
    assert_eq!(world.steps, ["dmsetup-remove"]);
    // Nothing is left to remove.
    remove_with(&mut world, None).unwrap();
    assert_eq!(world.steps, ["dmsetup-remove"]);
}

#[test]
fn a_direct_removal_rechecks_backend_and_mapping_before_it_acts() {
    let lose_backend: fn(&mut World) = |w| w.backends.clear();
    let change_mapping: fn(&mut World) = |w| w.set("dm-0/dm/uuid", "LVM-other\n");
    for (at, change) in
        [(1, lose_backend), (2, change_mapping), (4, lose_backend), (5, change_mapping)]
    {
        let mut world = connected_mapping();
        assert!(remove_with(&mut world, Some((at, change))).is_err(), "change at {at}");
        assert!(world.steps.is_empty(), "removed after a change at {at}");
    }
    // A mounted volume is never touched.
    let mut world = connected_mapping();
    world.mounted = true;
    assert!(remove_with(&mut world, None).is_err());
    assert!(world.steps.is_empty());
}

#[test]
fn a_failed_or_ineffective_removal_is_reported() {
    let mapping = BlockIdentity {
        name: "dm-0".into(),
        device: (253, 0),
        dm_name: Some("vg_maki_pg-data".into()),
        dm_uuid: Some("LVM-x".into()),
        slaves: vec!["nbd3".into()],
    };
    let world = connected_mapping();
    let record = world.read("pg").unwrap();
    let ours = || maki::recovery::Reply::Backend(Ok(Some(record.connection_id.clone())));
    let found = || maki::recovery::Reply::Target(Ok(Some(mapping.clone())));
    let until_removal = || {
        let mut removal = Removal::start(record.clone());
        for reply in [
            maki::recovery::Reply::Start,
            ours(),
            found(),
            maki::recovery::Reply::Confirmed(Ok(())),
            ours(),
        ] {
            removal.resume(reply);
        }
        assert!(matches!(removal.resume(found()), Deed::Remove(_)));
        removal
    };
    let mut removal = until_removal();
    removal.resume(maki::recovery::Reply::Removed(Ok((false, Some(5)))));
    let text = removal.finish().unwrap_err().to_string();
    assert_eq!(
        text,
        "step \"dmsetup remove vg_maki_pg-data\" failed with status Some(5): external command output omitted"
    );
    let mut removal = until_removal();
    removal.resume(maki::recovery::Reply::Removed(Ok((true, Some(0)))));
    removal.resume(ours());
    removal.resume(found());
    assert!(removal.finish().unwrap_err().to_string().contains("remained"));
    // A mapping without a name is never removed.
    let mut removal = Removal::start(record.clone());
    removal.resume(maki::recovery::Reply::Start);
    removal.resume(ours());
    let nameless = BlockIdentity { dm_name: None, ..mapping.clone() };
    assert!(matches!(
        removal.resume(maki::recovery::Reply::Target(Ok(Some(nameless)))),
        Deed::Stop
    ));
    assert!(removal.finish().unwrap_err().to_string().contains("no device-mapper name"));
}

// ---------- permission ----------

#[test]
fn only_the_recorded_backend_and_unmoved_nodes_authorize_a_deactivation() {
    let (_req, mut world) = activation_crashed();
    let record = world.read("pg").unwrap();
    let verified = record.recovery_intent.as_ref().unwrap().verified().clone();
    let nodes = vec![Some((43, 3))];
    let ours = || Ok(Some(record.connection_id.clone()));
    assert!(verify_connection(&record, ours()).is_ok());
    assert!(verify_connection(&record, Ok(None)).is_err());
    let error = verify_connection(&record, Ok(Some("other".into()))).unwrap_err();
    assert!(error.to_string().contains("/dev/nbd3 no longer has the recorded attachment identity"));
    assert!(matches!(
        verify_connection(&record, Err("denied".into())),
        Err(ExecError::Io(m)) if m == "denied"
    ));
    assert!(authorize_deactivation(&record, &verified, &nodes, ours()).is_ok());
    assert!(authorize_deactivation(&record, &verified, &vec![None], ours()).is_err());
    assert!(authorize_deactivation(&record, &verified, &nodes, Ok(None)).is_err());

    let recovery = |world: &World, nodes: &Vec<Option<(u32, u32)>>, said| {
        authorize_recovery_deactivation(&record, &verified, world.tree(), nodes, said)
    };
    assert!(recovery(&world, &nodes, Ok(None)).is_ok());
    assert!(recovery(&world, &nodes, ours()).is_err());
    assert!(recovery(&world, &vec![Some((43, 9))], Ok(None)).is_err());
    world.set("dm-0/dm/uuid", "LVM-other\n");
    assert!(recovery(&world, &nodes, Ok(None)).is_err());
}

// ---------- the workload guard ----------

/// What the guard was told, and how the machine changes meanwhile.
struct Guarded {
    world: World,
    calls: Vec<&'static str>,
    filesystem: String,
    change_mapping_after_probe: bool,
    change_mapping_after_sentinel: bool,
}

fn guarded() -> (AttachRequest, Guarded) {
    let mut req = request();
    req.fs_uuid = Some(FS_UUID.into());
    let mut world = World {
        sentinel: Some(req.volume_uuid.clone()),
        filesystem_uuid: Some(FS_UUID.into()),
        ..World::observed()
    };
    execute_with(&plan_attach(&req), true, &mut world).unwrap();
    world.steps.clear();
    world.backend_probes = 0;
    let system = Guarded {
        world,
        calls: vec![],
        filesystem: format!("TYPE=xfs\nUUID={FS_UUID}\n"),
        change_mapping_after_probe: false,
        change_mapping_after_sentinel: false,
    };
    (req, system)
}

fn verify_request(req: &AttachRequest, system: &mut Guarded) -> Result<(), ExecError> {
    let mut guard = WorkloadGuard::start(req, Ok(system.world.read(&req.volume)))?;
    let mut reply = Reply::Start;
    loop {
        reply = match guard.resume(reply) {
            Question::Backend(device) => {
                system.calls.push("backend");
                Reply::Backend(system.world.backend(&device))
            }
            Question::Mount(record) => {
                system.calls.push("kernel");
                let mounts = system.world.mounts(&record);
                let seen = observe_complete(&record, &mounts, system.world.tree());
                Reply::Mount(seen.map_err(|e| e.to_string()))
            }
            Question::Filesystem { mount, uuid, .. } => {
                system.calls.push("filesystem");
                let device = check_probe_device(true, (253, 0), &mount);
                let probe =
                    verify_filesystem_probe(Some(&uuid), true, system.filesystem.clone().into());
                if system.change_mapping_after_probe {
                    system.world.set("dm-0/dm/uuid", "LVM-replaced\n");
                }
                Reply::Filesystem(device.and(probe))
            }
            Question::Sentinel { mount, .. } => {
                system.calls.push("sentinel");
                let root = check_mount_root((253, 0), mount.device);
                let content = system.world.sentinel.clone().ok_or("sentinel unavailable".into());
                let value = root.and(content).and_then(|text: String| {
                    let len = text.len() as u64;
                    accept_sentinel(mount.device, true, len, (253, 0), text.into_bytes())
                });
                if system.change_mapping_after_sentinel {
                    system.world.set("dm-0/dm/uuid", "LVM-replaced\n");
                }
                Reply::Sentinel(value)
            }
            Question::Stop => return guard.finish(),
        };
    }
}

#[test]
fn gate_is_repeatable_without_commands_record_changes_or_probe_files() {
    let (req, mut system) = guarded();
    let record = system.world.read("pg").unwrap();
    for _ in 0..2 {
        verify_request(&req, &mut system).unwrap();
        assert!(system.world.steps.is_empty());
        assert!(kept(&system.world, &record));
    }
}

#[test]
fn absent_foreign_or_unreadable_backend_never_opens_the_filesystem() {
    for fault in [BackendFault::Missing, BackendFault::Foreign, BackendFault::Unreadable] {
        let (req, mut system) = guarded();
        system.world.backend_fault_on_probe = Some((1, fault));
        assert!(verify_request(&req, &mut system).is_err());
        assert_eq!(system.calls, ["backend"]);
        assert!(system.world.steps.is_empty());
    }
}

#[test]
fn missing_proof_changed_config_or_device_and_unpinned_uuid_refuse_before_reads() {
    for case in ["proof", "config", "device", "uuid"] {
        let (mut req, mut system) = guarded();
        match case {
            "proof" => system.world.records.get_mut("pg").unwrap().recovery = None,
            "config" => req.volume_uuid = OTHER_UUID.into(),
            "device" => req.nbd_device = "/dev/nbd4".into(),
            "uuid" => req.fs_uuid = None,
            _ => unreachable!(),
        }
        assert!(verify_request(&req, &mut system).is_err(), "{case}");
        assert!(system.calls.is_empty(), "{case}");
    }
}

#[test]
fn complete_mapping_proof_is_required_before_filesystem_reads() {
    for case in ["changed_uuid", "missing_mapping", "missing_edge", "extra_holder"] {
        let (req, mut system) = guarded();
        match case {
            "changed_uuid" => system.world.set("dm-0/dm/uuid", "LVM-other\n"),
            "missing_mapping" => {
                system.world.tree.as_mut().unwrap().entries.retain(|e| e.name != "dm-0");
                system.world.entry("nbd3").holders = Some(vec![]);
            }
            "missing_edge" => system.world.entry("nbd3").holders = Some(vec![]),
            "extra_holder" => system.world.set("nbd3/holders/dm-99", ""),
            _ => unreachable!(),
        }
        assert!(verify_request(&req, &mut system).is_err(), "{case}");
        assert!(!system.calls.contains(&"filesystem"), "{case}");
        assert!(!system.calls.contains(&"sentinel"), "{case}");
    }
}

#[test]
fn cleanup_subset_evidence_does_not_authorize_a_workload_start() {
    let (req, mut system) = guarded();
    let partition = system.world.entry("nbd3p1");
    partition.holders = Some(vec![]);
    partition.dev = Some("43:4\n".into());
    partition.partition = Some("1\n".into());
    partition.parent = Some("nbd3".into());
    let mut record = system.world.read("pg").unwrap();
    system.world.mounted = false;
    record.recovery =
        Some(capture(&record, &system.world.mounts(&record), system.world.tree()).unwrap());
    system.world.write(record.clone()).unwrap();
    system.world.mounted = true;
    system.world.tree.as_mut().unwrap().entries.retain(|e| e.name != "nbd3p1");
    assert!(
        system.world.recovery_observation(&record).unwrap().mounted,
        "cleanup deliberately accepts the surviving subset"
    );
    assert!(verify_request(&req, &mut system).is_err());
    assert!(!system.calls.contains(&"filesystem"));
    assert!(!system.calls.contains(&"sentinel"));
}

#[test]
fn missing_read_only_subtree_stacked_or_extra_mounts_refuse_the_gate() {
    for case in ["missing", "ro", "subtree", "stacked", "extra"] {
        let (req, mut system) = guarded();
        let record = system.world.read("pg").unwrap();
        let mount = system.world.mounts(&record);
        system.world.mountinfo = Some(match case {
            "missing" => String::new(),
            "ro" => mount.replace(" rw", " ro"),
            "subtree" => mount.replace("253:0 / ", "253:0 /subdir "),
            "stacked" => format!("{mount}{mount}"),
            "extra" => format!("{mount}41 25 253:0 / /other rw - xfs /dev/dm-0 rw\n"),
            _ => unreachable!(),
        });
        assert!(verify_request(&req, &mut system).is_err(), "{case}");
        assert!(!system.calls.contains(&"filesystem"), "{case}");
    }
}

fn mountinfo_path(path: &str) -> String {
    path.replace('\\', "\\134").replace(' ', "\\040")
}

#[test]
fn foreign_descendant_mounts_refuse_the_gate_before_filesystem_reads() {
    for mount_name in ["mount", "mount with spaces", "mount\\literal"] {
        for child_first in [false, true] {
            let (mut req, mut system) = guarded();
            req.mountpoint = format!("/srv/{mount_name}");
            let record = system.world.records.get_mut("pg").unwrap();
            record.attachment.mountpoint = req.mountpoint.clone();
            let record = record.clone();
            let root_mount = format!(
                "40 25 253:0 / {} rw - xfs /dev/dm-0 rw\n",
                mountinfo_path(&req.mountpoint)
            );
            let child_mount = format!(
                "41 40 8:1 / {} rw - ext4 /dev/sda1 rw\n",
                mountinfo_path(&format!("{}/data", req.mountpoint))
            );
            system.world.mountinfo = Some(if child_first {
                format!("{child_mount}{root_mount}")
            } else {
                format!("{root_mount}{child_mount}")
            });
            assert!(
                system.world.recovery_observation(&record).is_ok(),
                "the existing cleanup observer keeps its prior contract"
            );
            assert!(
                verify_request(&req, &mut system).is_err(),
                "foreign data path hidden below {mount_name}, child_first={child_first}"
            );
            assert!(!system.calls.contains(&"filesystem"));
            assert!(!system.calls.contains(&"sentinel"));
            assert!(system.world.steps.is_empty());
        }
    }
}

#[test]
fn unrelated_sibling_mount_with_the_same_text_prefix_does_not_block_the_gate() {
    let (req, mut system) = guarded();
    let record = system.world.read("pg").unwrap();
    let sibling = format!(
        "41 25 8:1 / {}-other/data rw - ext4 /dev/sda1 rw\n",
        mountinfo_path(&req.mountpoint)
    );
    system.world.mountinfo = Some(format!("{}{sibling}", system.world.mounts(&record)));
    verify_request(&req, &mut system).unwrap();
    assert!(system.world.steps.is_empty());
}

#[test]
fn root_mount_gate_treats_every_other_absolute_mount_as_a_descendant() {
    let (_req, system) = guarded();
    maki::config::check_abs_path("mountpoint", "/").unwrap();
    let mut record = system.world.read("pg").unwrap();
    record.attachment.mountpoint = "/".into();
    let root = "40 25 253:0 / / rw - xfs /dev/dm-0 rw\n";
    assert!(observe_complete(&record, root, system.world.tree()).is_ok());
    let nested = format!("{root}41 40 0:9 / /proc rw - proc proc rw\n");
    assert!(observe_complete(&record, &nested, system.world.tree()).is_err());
}

#[test]
fn filesystem_pin_and_sentinel_must_both_match_without_initialization() {
    for case in ["fs_uuid", "fstype", "ambiguous", "sentinel", "missing_sentinel"] {
        let (mut req, mut system) = guarded();
        req.init_sentinel = true; // A first-attach option never authorizes writes.
        match case {
            "fs_uuid" => system.filesystem = "TYPE=xfs\nUUID=wrong\n".into(),
            "fstype" => system.filesystem = format!("TYPE=ext4\nUUID={FS_UUID}\n"),
            "ambiguous" => {
                system.filesystem = format!("TYPE=xfs\nUUID={FS_UUID}\nUUID={FS_UUID}\n")
            }
            "sentinel" => system.world.sentinel = Some("wrong".into()),
            "missing_sentinel" => system.world.sentinel = None,
            _ => unreachable!(),
        }
        assert!(verify_request(&req, &mut system).is_err(), "{case}");
        assert!(system.world.steps.is_empty());
        if case == "missing_sentinel" {
            assert!(system.world.sentinel.is_none());
        }
    }
}

#[test]
fn topology_and_backend_are_rechecked_after_each_filesystem_read() {
    for after_sentinel in [false, true] {
        let (req, mut system) = guarded();
        system.change_mapping_after_probe = !after_sentinel;
        system.change_mapping_after_sentinel = after_sentinel;
        assert!(verify_request(&req, &mut system).is_err());
        assert_eq!(system.calls.contains(&"sentinel"), after_sentinel);
    }
    let (req, mut system) = guarded();
    verify_request(&req, &mut system).unwrap();
    let probes = system.world.backend_probes;
    assert_eq!(probes, 6);
    for probe in 1..=probes {
        for fault in [BackendFault::Missing, BackendFault::Foreign, BackendFault::Unreadable] {
            let (req, mut system) = guarded();
            system.world.backend_fault_on_probe = Some((probe, fault));
            assert!(verify_request(&req, &mut system).is_err(), "probe {probe}: {fault:?}");
            assert!(system.world.steps.is_empty());
        }
    }
}

#[test]
fn descriptor_sentinel_reader_rejects_wrong_devices_links_and_unbounded_files() {
    let device = (8, 1);
    let read = |is_file: bool, file_device: (u32, u32), content: Vec<u8>| {
        accept_sentinel(device, is_file, content.len() as u64, file_device, content)
    };
    assert_eq!(read(true, device, b"volume\n".to_vec()).unwrap(), "volume");
    assert!(check_mount_root(device, device).is_ok());
    assert!(check_mount_root((9, 1), device).is_err());
    assert!(read(true, (9, 1), b"volume".to_vec()).is_err());
    assert!(read(true, device, vec![b'x'; SENTINEL_MAX_BYTES as usize + 1]).is_err());
    assert!(read(false, device, b"volume".to_vec()).is_err());
    assert!(read(true, device, b" \n".to_vec()).is_err());
    assert!(read(true, device, vec![0xff]).is_err());
    // A file that grew after it was measured is refused as well.
    let grown = vec![b'x'; SENTINEL_MAX_BYTES as usize + 1];
    assert!(accept_sentinel(device, true, 1, device, grown).is_err());
}

// ---------- filesystem probes ----------

#[test]
fn filesystem_probe_rejects_malformed_or_conflicting_identity_evidence() {
    for stdout in [
        Vec::new(),
        b"UUID=11111111-2222-4333-8444-555555555555\n".to_vec(),
        b"TYPE=xfs\nTYPE=ext4\n".to_vec(),
        format!("TYPE=xfs\nUUID={FS_UUID}\nUUID={OTHER_UUID}\n").into_bytes(),
        b"TYPE=xfs\nnot-a-tag\n".to_vec(),
        b"TYPE=xfs\nUUID=\0hidden\n".to_vec(),
        b"TYPE=xfs\nUUID=\xff\n".to_vec(),
        vec![b'x'; maki::command::MAX_OUTPUT_BYTES + 1],
    ] {
        assert!(
            verify_filesystem_probe(Some(FS_UUID), true, stdout).is_err(),
            "accepted malformed identity evidence"
        );
    }
    // Export order is not specified, and an informational DEVNAME must not be
    // used instead of the device independently selected by the plan.
    verify_filesystem_probe(
        Some(FS_UUID),
        true,
        format!("UUID={FS_UUID}\nDEVNAME=/untrusted/alias\nTYPE=xfs\n").into_bytes(),
    )
    .unwrap();
}

#[test]
fn a_filesystem_must_be_xfs_and_the_pinned_one() {
    let probe = |pinned: Option<&str>, success: bool, text: &str| {
        verify_filesystem_probe(pinned, success, text.as_bytes().to_vec())
            .map_err(|e| e.to_string())
    };
    let other = format!("TYPE=xfs\nUUID={OTHER_UUID}\n");
    assert!(probe(Some(FS_UUID), true, &other).unwrap_err().contains("filesystem UUID mismatch"));
    assert!(probe(None, true, "TYPE=ext4\n").unwrap_err().contains("is not XFS"));
    assert!(probe(None, true, "TYPE=xfs\n").is_ok());
    assert!(probe(Some(FS_UUID), true, "TYPE=xfs\n").is_err());
    for failed in ["TYPE=xfs\n".to_string(), format!("TYPE=xfs\nUUID={FS_UUID}\n")] {
        assert!(probe(Some(FS_UUID), false, &failed).is_err());
    }
}

// ---------- steps ----------

#[test]
fn steps_run_their_programs_with_exact_arguments() {
    let connect = PlannedStep::NbdConnect {
        socket: "/s".into(),
        device: "/dev/nbd3".into(),
        block_size: 512,
    };
    let line = command_of(&connect, Some("maki-x")).unwrap().unwrap();
    assert_eq!(line.program, "nbd-client");
    assert_eq!(
        line.arguments,
        ["-unix", "/s", "/dev/nbd3", "-b", "512", "-identifier", "maki-x"]
    );
    let error = command_of(&connect, None).unwrap_err();
    assert!(error.to_string().contains("missing connect identifier"));
    let grow = PlannedStep::LvExtend { vg_name: "vg".into(), lv_name: "lv".into(), add_bytes: 7 };
    assert_eq!(command_of(&grow, None).unwrap().unwrap().arguments, ["-L", "+7b", "vg/lv"]);
    let sentinel = PlannedStep::WriteSentinel { mountpoint: "/m".into(), volume_uuid: "u".into() };
    assert!(command_of(&sentinel, None).unwrap().is_none());
}

#[test]
fn a_failed_command_is_reported_with_its_status_and_its_words() {
    let step = PlannedStep::ModprobeNbd;
    assert!(judge_run(&step, true, Some(0), &b"noise".to_vec()).is_ok());
    let error = judge_run(&step, false, Some(-3), &b"no module\xff".to_vec()).unwrap_err();
    assert_eq!(
        error.to_string(),
        "step \"modprobe nbd\" failed with status Some(-3): no module\u{fffd}"
    );
    let rolled = ExecError::RolledBack {
        error: Box::new(ExecError::NoFreeDevice),
        rolled_back: 2,
        rollback_failed: 1,
    };
    assert_eq!(
        rolled.to_string(),
        "no free /dev/nbdN device (all connected or module not loaded); rolled back 2 step(s), 1 rollback step(s) FAILED - manual cleanup required"
    );
}

#[test]
fn devices_become_ready_or_time_out() {
    let step = PlannedStep::ModprobeNbd;
    let size = Some("2048\n".to_string());
    assert!(matches!(
        judge_readiness(&step, "/dev/nbd3", &size, true, 0),
        Readiness::Ready
    ));
    assert!(matches!(judge_readiness(&step, "/dev/nbd3", &None, true, 15_000), Readiness::Again));
    assert!(matches!(
        judge_readiness(&step, "/dev/nbd3", &size, false, 15_001),
        Readiness::Failed(e) if e.to_string().contains("did not become ready within 15s")
    ));
    assert!(matches!(judge_readiness(&step, "/dev/sda", &size, true, 0), Readiness::Failed(_)));
    let none = vec![("nbd0".to_string(), true), ("nbd1p1".to_string(), false)];
    assert!(matches!(allocate_nbd_device(&none), Err(ExecError::NoFreeDevice)));
}

#[test]
fn sentinels_are_created_once_and_never_changed() {
    let step = PlannedStep::WriteSentinel { mountpoint: "/m".into(), volume_uuid: "u".into() };
    assert!(matches!(plan_sentinel(&step, &None, "u"), SentinelAction::Create(c) if c == "u\n"));
    assert!(matches!(plan_sentinel(&step, &Some("u".into()), "u"), SentinelAction::Keep));
    assert!(matches!(
        plan_sentinel(&step, &Some("v".into()), "u"),
        SentinelAction::Refuse(e) if e.to_string().contains("\"v\"; refusing to overwrite")
    ));
    assert_eq!(sentinel_value(true, 4, &Some(" u \n".into())).as_deref(), Some("u"));
    assert_eq!(sentinel_value(false, 4, &Some("u".into())), None);
    assert_eq!(sentinel_value(true, SENTINEL_MAX_BYTES + 1, &Some("u".into())), None);
    assert_eq!(printed_uuid(true, &b" abc\n".to_vec()).as_deref(), Some("abc"));
    assert_eq!(printed_uuid(false, &b"abc".to_vec()), None);
    assert_eq!(rw_probe_name(0x1f, 0xabc), ".maki-rw-probe.1fabc");
    assert_eq!(rw_probe_payload(12), "maki-rw-probe 12");
}

// ---------- the executor ----------

#[test]
fn plans_that_contradict_themselves_or_the_state_are_refused() {
    let mut world = World::default();
    let error = execute_with(&plan_attach(&request()), false, &mut world).unwrap_err();
    assert!(error.to_string().contains("attach state lock is required"));
    // An activation of some other group than the attachment's.
    let mut forged = plan_attach(&request());
    for step in &mut forged.steps {
        if let PlannedStep::LvmActivate { vg_name } = step {
            *vg_name = "vg_other".into();
        }
    }
    assert!(execute_with(&forged, true, &mut world).is_err());
    // A detach with a step too many.
    execute_with(&plan_attach(&request()), true, &mut world).unwrap();
    world.steps.clear();
    let mut longer = plan_detach(&request());
    longer.steps.push(PlannedStep::ModprobeNbd);
    assert!(execute_with(&longer, true, &mut world).is_err());
    assert!(world.steps.is_empty());
    // State that cannot be read.
    let result = Executor::start(&plan_detach(&request()), Some(Err("denied".into())));
    assert!(matches!(result, Err(ExecError::Io(m)) if m == "denied"));
}

/// An attach that connects, sets the block size and disconnects again.
fn passing_plan(connected: &str, disconnected: &str) -> Plan {
    let mut request = request();
    request.nbd_device = connected.into();
    let mut plan = plan_attach(&request);
    plan.steps.retain(|step| matches!(step.kind(), "nbd-connect" | "set-block-size"));
    plan.steps.push(PlannedStep::NbdDisconnect { device: disconnected.into() });
    plan
}

#[test]
fn a_disconnecting_step_of_an_attach_needs_the_recorded_backend() {
    for device in ["/dev/nbd3", AUTO_NBD_DEVICE] {
        let plan = passing_plan(device, device);
        let mut world = World::default();
        execute_with(&plan, true, &mut world).unwrap();
        assert_eq!(world.steps.last(), Some(&"nbd-disconnect"));
        assert!(world.backends.is_empty());

        for fault in [BackendFault::Foreign, BackendFault::Missing, BackendFault::Unreadable] {
            let mut world = World {
                backend_fault_after: Some(("set-block-size", fault)),
                ..World::default()
            };
            let error = execute_with(&plan, true, &mut world).unwrap_err();
            assert!(!world.steps.contains(&"nbd-disconnect"), "{fault:?}: {:?}", world.steps);
            assert!(world.backends.contains_key("/dev/nbd3"), "{}", error.to_string());
        }
    }
}

#[test]
fn an_attach_never_disconnects_another_device() {
    for (connected, disconnected) in
        [("/dev/nbd3", "/dev/nbd4"), ("/dev/nbd3", AUTO_NBD_DEVICE), (AUTO_NBD_DEVICE, "/dev/nbd3")]
    {
        let mut world = World::default();
        let plan = passing_plan(connected, disconnected);
        let error = execute_with(&plan, true, &mut world).unwrap_err();
        let complaint = "NBD disconnection does not match the attachment";
        assert!(error.to_string().contains(complaint), "{}", error.to_string());
        assert!(world.steps.is_empty() && world.read("pg").is_none());
    }
}

#[test]
fn an_unbound_mount_is_taken_back_when_a_later_step_fails() {
    let plan = Plan {
        description: "unbound".into(),
        volume: "pg".into(),
        attachment: None,
        steps: vec![
            PlannedStep::MountXfs { device: "/dev/x".into(), mountpoint: "/a".into() },
            PlannedStep::SetBlockSize { device: "/dev/nbd0".into(), block_size: 512 },
        ],
    };
    let mut world = World { fail_at: Some("set-block-size"), ..World::default() };
    let error = execute_with(&plan, false, &mut world).unwrap_err();
    assert_eq!(world.steps, ["mount-xfs", "set-block-size", "umount"]);
    assert!(error.to_string().contains("rolled back 1 step(s)"), "{}", error.to_string());
    let mut world = World::default();
    execute_with(&plan, false, &mut world).unwrap();
    assert_eq!(world.steps, ["mount-xfs", "set-block-size"]);
}

#[test]
fn an_answer_to_something_else_is_a_failure() {
    let plan = plan_detach(&request());
    let mut world = World::default();
    execute_with(&plan_attach(&request()), true, &mut world).unwrap();
    let mut executor = Executor::start(&plan, Some(Ok(world.read("pg")))).unwrap();
    assert!(matches!(executor.resume(Answer::Start), Action::Probe(device) if device == "/dev/nbd3"));
    let end = match executor.resume(Answer::Ran(Ok(()))) {
        Action::Stop(end) => end,
        _ => panic!("an unexpected answer must stop the run"),
    };
    assert!(executor.finish(end).unwrap_err().to_string().contains("unexpected answer"));
}

#[test]
fn the_backing_devices_are_the_leaves_of_the_tree() {
    let entry = |name: &str, dev: &str, slaves: &[&str]| {
        let mut entry = BlockEntry::named(name);
        entry.dev = Some(format!("{dev}\n"));
        entry.slaves = Some(slaves.iter().map(|s| s.to_string()).collect());
        entry
    };
    let tree = BlockTree {
        entries: vec![
            entry("sda1", "8:1", &[]),
            entry("nbd3", "43:3", &[]),
            entry("nbd3p1", "43:4", &[]),
            entry("dm-0", "253:0", &["nbd3p1", "dm-1"]),
            entry("dm-1", "253:1", &["sda1", "nbd3"]),
        ],
        odd_names: false,
    };
    assert_eq!(backing_devices(&tree, "253:0"), ["/dev/nbd3", "/dev/nbd3", "/dev/sda1"]);
    assert_eq!(backing_devices(&tree, "43:4"), ["/dev/nbd3"]);
    assert_eq!(backing_devices(&tree, "8:1"), ["/dev/sda1"]);
    assert!(backing_devices(&tree, "253:7").is_empty());
}

#[test]
fn group_changes_and_locks_are_judged_by_their_purpose() {
    for (change, text) in [
        (GroupChange::Activation, "scoped LVM activation failed"),
        (GroupChange::Rollback, "scoped LVM rollback failed"),
        (GroupChange::Recovery, "scoped LVM recovery deactivation failed"),
    ] {
        assert!(judge_group_change(change, true).is_ok());
        let error = judge_group_change(change, false).unwrap_err();
        assert_eq!(error.to_string(), format!("step \"nbd-identity\" failed: {text}"));
    }
    assert!(needs_lock(&plan_attach(&request())));
    assert!(needs_lock(&plan_detach(&request())));
    let unbound = Plan {
        description: String::new(),
        volume: "pg".into(),
        attachment: None,
        steps: vec![PlannedStep::ModprobeNbd],
    };
    assert!(!needs_lock(&unbound));
    assert_eq!(
        filesystem_arguments("/proc/7/fd/4"),
        [
            "--probe", "--output", "export", "--match-tag", "TYPE", "--match-tag", "UUID",
            "/proc/7/fd/4",
        ]
    );
}
