//! What the kernel's block-device tree, its mounts and the stored records say
//! about an attachment.

use maki::detach::{logical_volume_mapping, mapped_volume_group, observe, DetachObservation};
use maki::plan::AttachmentIdentity;
use maki::recover::{
    dmsetup_info_arguments, dmsetup_remove_arguments, single_deactivation_mapping,
    verify_removal_info, BlockIdentity,
};
use maki::state::{
    accept_record, check_size, private_regular_file, record_name, temporary_name,
    trusted_directory, BoundDeviceRecord, FileFacts, RECORD_MAX_BYTES,
};
use maki::sysfs::{device_number, BlockEntry, BlockTree, ProbeError};

const UUID: &str = "0f7c2b1a-3d4e-4f5a-8b6c-7d8e9f0a1b2c";

fn record() -> BoundDeviceRecord {
    BoundDeviceRecord {
        version: 1,
        volume: "pg".into(),
        attachment: AttachmentIdentity {
            volume_uuid: UUID.into(),
            nbd_socket: "/run/maki/pg/nbd.sock".into(),
            mountpoint: "/srv/pg".into(),
            vg_name: "vg-maki".into(),
            lv_name: "data-lv".into(),
        },
        device: "/dev/nbd3".into(),
        connection_id: "maki-11111111-2222-4333-8444-555555555555".into(),
        recovery: None,
        recovery_intent: None,
        growth_target: None,
    }
}

/// A tree with the recorded device and the record's sentinel.
struct Fixture {
    tree: BlockTree,
    sentinel: Option<String>,
    record: BoundDeviceRecord,
}

impl Fixture {
    fn new() -> Self {
        let mut nbd = BlockEntry::named("nbd3");
        nbd.dev = Some("43:3\n".into());
        nbd.holders = Some(vec![]);
        Self {
            tree: BlockTree { entries: vec![nbd], odd_names: false },
            sentinel: Some(UUID.into()),
            record: record(),
        }
    }

    fn entry(&mut self, name: &str) -> &mut BlockEntry {
        if !self.tree.entries.iter().any(|e| e.name == name) {
            self.tree.entries.push(BlockEntry::named(name));
        }
        self.tree.entries.iter_mut().find(|e| e.name == name).unwrap()
    }

    fn mapping(&mut self, name: &str, slave: &str) {
        let map = self.entry("dm-0");
        map.dm_name = Some(name.into());
        map.dm_uuid = Some("LVM-fixture-uuid\n".into());
        map.dev = Some("253:0\n".into());
        map.slaves = Some(vec![slave.into()]);
        self.entry("nbd3").holders = Some(vec!["dm-0".into()]);
    }

    fn mountinfo(&self, device: &str, root: &str, fs: &str) -> String {
        format!(
            "40 25 {device} {root} {} rw - {fs} /dev/mapper/vg--maki-data--lv rw\n",
            self.record.attachment.mountpoint
        )
    }

    fn observe(&self, mounts: &str) -> Result<DetachObservation, ProbeError> {
        observe(&self.record, mounts, &self.tree, &self.sentinel)
    }

    fn partition(&mut self) {
        let part = self.entry("nbd3p1");
        part.holders = Some(vec![]);
        part.partition = Some("1\n".into());
        part.dev = Some("43:4\n".into());
        part.parent = Some("nbd3".into());
    }
}

// ---------- what is live ----------

#[test]
fn observation_distinguishes_complete_and_partial_detach() {
    let mut fixture = Fixture::new();
    let completed = fixture.observe("").unwrap();
    assert!(!completed.mounted && !completed.vg_active && !completed.nbd_in_use);
    fixture.mapping("vg--maki-data--lv", "nbd3");
    let unmounted = fixture.observe("").unwrap();
    assert!(!unmounted.mounted && unmounted.vg_active && unmounted.nbd_in_use);
    let attached = fixture.observe(&fixture.mountinfo("253:0", "/", "xfs")).unwrap();
    assert!(attached.mounted && attached.vg_active && attached.nbd_in_use);
}

#[test]
fn replacement_mount_device_filesystem_subtree_or_sentinel_is_rejected() {
    let mut fixture = Fixture::new();
    fixture.mapping("vg--maki-data--lv", "nbd3");
    for (device, root, fs) in
        [("253:1", "/", "xfs"), ("253:0", "/subdir", "xfs"), ("253:0", "/", "ext4")]
    {
        assert!(fixture.observe(&fixture.mountinfo(device, root, fs)).is_err());
    }
    fixture.sentinel = Some("other-volume".into());
    assert!(fixture.observe(&fixture.mountinfo("253:0", "/", "xfs")).is_err());
}

#[test]
fn vg_mapping_on_a_different_device_or_unreadable_topology_is_rejected() {
    let mut fixture = Fixture::new();
    fixture.mapping("vg--maki-data--lv", "nbd4");
    fixture.entry("nbd4").slaves = Some(vec![]);
    assert!(fixture.observe("").is_err());
    fixture.entry("dm-0").slaves = Some(vec!["dm-1".into()]);
    assert!(fixture.observe("").is_err());
}

#[test]
fn malformed_mountinfo_cannot_be_treated_as_an_absent_mount() {
    let fixture = Fixture::new();
    for text in
        ["malformed\n", "1 2 invalid / / rw - xfs /dev/x rw\n", "1 2 8:0 / / rw\n"]
    {
        assert!(fixture.observe(text).is_err());
    }
}

#[test]
fn another_vg_with_an_escaped_hyphen_prefix_is_not_the_recorded_vg() {
    let mut fixture = Fixture::new();
    fixture.mapping("vg--maki--other-data--lv", "nbd4");
    fixture.entry("nbd4").slaves = Some(vec![]);
    fixture.entry("nbd3").holders = Some(vec![]);
    let observed = fixture.observe("").unwrap();
    assert!(!observed.vg_active && !observed.nbd_in_use);
}

#[test]
fn an_active_holder_of_a_recorded_nbd_partition_prevents_disconnect() {
    let mut fixture = Fixture::new();
    fixture.partition();
    fixture.entry("nbd3p1").holders = Some(vec!["dm-9".into()]);
    let observed = fixture.observe("").unwrap();
    assert!(!observed.mounted && !observed.vg_active);
    assert!(observed.nbd_in_use, "a partition holder keeps the whole NBD device in use");
}

#[test]
fn direct_mounts_of_the_recorded_nbd_or_its_partition_prevent_disconnect() {
    let mut fixture = Fixture::new();
    fixture.partition();
    for device in ["43:3", "43:4"] {
        let mounts = format!("44 25 {device} / /other-mount rw - xfs /dev/fixture rw\n");
        let observed = fixture.observe(&mounts).unwrap();
        assert!(!observed.mounted && !observed.vg_active);
        assert!(observed.nbd_in_use, "direct mount of {device} is still using the NBD device");
    }
}

#[test]
fn an_unreadable_attribute_is_no_answer() {
    let mut fixture = Fixture::new();
    fixture.entry("nbd3").holders = None;
    assert_eq!(fixture.observe("").unwrap_err(), ProbeError::Unreadable);
    assert_eq!(device_number("253:7\n").unwrap(), (253, 7));
    for text in ["253", "253:", "x:1", "1:4294967296"] {
        assert!(device_number(text).is_err(), "{text}");
    }
}

#[test]
fn mapping_names_double_their_hyphens() {
    assert_eq!(logical_volume_mapping("vg-maki", "data-lv"), "vg--maki-data--lv");
    assert_eq!(mapped_volume_group("vg--maki-data--lv").as_deref(), Some("vg-maki"));
    assert_eq!(mapped_volume_group("nogroup"), None);
}

// ---------- direct deactivation ----------

fn node(name: &str, dm_name: Option<&str>, slaves: &[&str]) -> BlockIdentity {
    BlockIdentity {
        name: name.into(),
        device: (253, 0),
        dm_name: dm_name.map(str::to_owned),
        dm_uuid: dm_name.map(|name| format!("LVM-{name}")),
        slaves: slaves.iter().map(|name| (*name).into()).collect(),
    }
}

#[test]
fn forced_deactivation_accepts_only_one_target_mapping() {
    let nbd = node("nbd3", None, &[]);
    let pool = node("dm-0", Some("vg-pool"), &["nbd3"]);
    let data = node("dm-1", Some("vg-data"), &["dm-0"]);

    assert_eq!(
        single_deactivation_mapping(&vec![nbd.clone(), data.clone()], "vg-data")
            .unwrap()
            .dm_name
            .as_deref(),
        Some("vg-data")
    );
    assert!(single_deactivation_mapping(&vec![nbd.clone(), pool, data], "vg-data").is_err());
    assert!(single_deactivation_mapping(&vec![nbd.clone()], "vg-data").is_err());
    assert!(single_deactivation_mapping(
        &vec![nbd, node("dm-1", Some("vg-other"), &["nbd3"])],
        "vg-data"
    )
    .is_err());
}

#[test]
fn forced_deactivation_requires_exact_closed_dm_identity() {
    let expected = node("dm-7", Some("vg-data"), &["nbd3"]);
    let info =
        |line: &str| verify_removal_info(&expected, true, true, line.as_bytes().to_vec());
    assert!(info("vg-data\tLVM-vg-data\t253\t0\t0\n").is_ok());
    for changed in [
        "other\tLVM-vg-data\t253\t0\t0\n",
        "vg-data\tLVM-other\t253\t0\t0\n",
        "vg-data\tLVM-vg-data\t253\t9\t0\n",
        "vg-data\tLVM-vg-data\t253\t0\t1\n",
        "vg-data\tLVM-vg-data\t253\t0\t0\nextra\n",
    ] {
        assert!(info(changed).is_err(), "accepted changed dmsetup identity: {changed:?}");
    }
    let line = b"vg-data\tLVM-vg-data\t253\t0\t0\n".to_vec();
    assert!(verify_removal_info(&expected, false, true, line.clone()).is_err());
    assert!(verify_removal_info(&expected, true, false, line).is_err());
    assert!(verify_removal_info(&expected, true, true, vec![0xff]).is_err());
}

#[test]
fn forced_deactivation_commands_do_not_force_defer_or_retry() {
    assert_eq!(
        dmsetup_info_arguments("vg-data"),
        [
            "info",
            "--noheadings",
            "--columns",
            "--separator",
            "\t",
            "-o",
            "name,uuid,major,minor,open",
            "vg-data"
        ]
    );
    assert_eq!(dmsetup_remove_arguments("vg-data"), ["remove", "vg-data"]);
}

// ---------- records ----------

#[test]
fn untrusted_directory_owner_and_writable_ancestors_are_rejected() {
    let directory =
        |mode: u32| FileFacts { is_dir: true, is_file: false, uid: 7, mode, nlink: 2 };
    assert!(trusted_directory(&directory(0o700), 7).is_ok());
    assert!(trusted_directory(&directory(0o700), 8).is_err());
    assert!(trusted_directory(&directory(0o770), 7).is_err());
    assert!(trusted_directory(&directory(0o707), 7).is_err());
    let file = FileFacts { is_dir: false, is_file: true, uid: 7, mode: 0o700, nlink: 1 };
    assert!(trusted_directory(&file, 7).is_err());
}

#[test]
fn malformed_legacy_oversized_and_shared_records_fail_closed() {
    assert!(accept_record(10, None, "pg").is_err());
    assert!(accept_record(RECORD_MAX_BYTES + 1, Some(record()), "pg").is_err());
    assert!(accept_record(100, Some(record()), "pg").is_ok());
    assert!(accept_record(100, Some(record()), "other").is_err());
    assert!(check_size(RECORD_MAX_BYTES).is_ok());
    assert!(check_size(RECORD_MAX_BYTES + 1).is_err());
    let file =
        |mode: u32, nlink: u64| FileFacts { is_dir: false, is_file: true, uid: 0, mode, nlink };
    assert!(private_regular_file(&file(0o100600, 1), 0).is_ok());
    assert!(private_regular_file(&file(0o100660, 1), 0).is_err());
    assert!(private_regular_file(&file(0o100600, 2), 0).is_err());
    assert!(private_regular_file(&file(0o100600, 1), 1).is_err());
}

#[test]
fn record_names_cannot_escape_the_open_directory() {
    for name in ["../pg", "/pg", "pg/other", ".", ".."] {
        assert!(record_name(name).is_err(), "{name}");
        let mut entry = record();
        entry.volume = name.into();
        assert!(entry.validate().is_err(), "{name}");
    }
    assert_eq!(record_name("pg").unwrap(), "pg.nbd");
    assert!(temporary_name(&record(), 12).contains("12"));
}

#[test]
fn every_part_of_a_record_is_validated() {
    assert!(record().validate().is_ok());
    let broken: Vec<(&str, fn(&mut BoundDeviceRecord))> = vec![
        ("version", |r| r.version = 2),
        ("uuid", |r| r.attachment.volume_uuid = "x".into()),
        ("socket", |r| r.attachment.nbd_socket = "nbd.sock".into()),
        ("mountpoint", |r| r.attachment.mountpoint = "/srv/../pg".into()),
        ("vg", |r| r.attachment.vg_name = "a/b".into()),
        ("lv", |r| r.attachment.lv_name = "-d".into()),
        ("device", |r| r.device = "/dev/sda".into()),
        ("prefix", |r| r.connection_id = UUID.into()),
        ("nonce", |r| r.connection_id = "maki-x".into()),
    ];
    for (name, change) in broken {
        let mut entry = record();
        change(&mut entry);
        assert!(entry.validate().is_err(), "{name}");
    }
}
