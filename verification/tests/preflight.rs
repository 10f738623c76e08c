//! The LVM preflight: candidate devices, labels, the read-only report, and the
//! mappings of the activated group.

use maki::detach::DetachObservation;
use maki::lvm_preflight::{
    activation_arguments, authorize_activation, check_inactive, check_label_device, check_nodes,
    check_report, collect_labels, deactivation_arguments, discover_at, is_lvm_uuid,
    label_arguments, probe_label,
    report_arguments, validate, verify_mapping, verify_recovery_device_identity,
    verify_rollback_mapping, Device, Group, Lv, Pv, VerifiedLvm, Vg, MAX_REPORT,
};
use maki::plan::AttachmentIdentity;
use maki::state::BoundDeviceRecord;
use maki::sysfs::{BlockEntry, BlockTree, ProbeError};
use maki::table::Table;
use serde_json::Value;

const VG: &str = "aaaaaa-bbbb-cccc-dddd-eeee-ffff-gggggg";
const LV: &str = "hhhhhh-iiii-jjjj-kkkk-llll-mmmm-nnnnnn";
const PV1: &str = "111111-2222-3333-4444-5555-6666-777777";
const PV2: &str = "888888-9999-aaaa-bbbb-cccc-dddd-eeeeee";

fn device(path: &str, number: (u32, u32), start: u64, sectors: u64) -> Device {
    Device { path: path.into(), number, start, sectors }
}

fn devices() -> Vec<Device> {
    vec![
        device("/dev/nbd3", (43, 3), 0, 4096),
        device("/dev/nbd3p1", (43, 4), 128, 512),
        device("/dev/nbd3p2", (43, 5), 1024, 512),
    ]
}

fn table(entries: &[(&str, &str)]) -> Table<String> {
    let mut table = Table::new();
    for (key, value) in entries {
        table.insert(key, value.to_string());
    }
    table
}

fn labels() -> Table<String> {
    table(&[("/dev/nbd3p1", PV1), ("/dev/nbd3p2", PV2)])
}

fn fixture() -> Value {
    let text = format!(
        r#"{{"report": [{{
        "vg": [{{"vg_name":"vg_maki_pg","vg_uuid":"{VG}","vg_seqno":"17","pv_count":"2",
            "vg_missing_pv_count":"0","vg_partial":"0","vg_exported":"0","vg_systemid":"","vg_lock_type":""}}],
        "pv": [
            {{"pv_name":"/dev/nbd3p1","pv_uuid":"{PV1}","vg_uuid":"{VG}","pv_missing":"0","pv_duplicate":"0"}},
            {{"pv_name":"/dev/nbd3p2","pv_uuid":"{PV2}","vg_uuid":"{VG}","pv_missing":"0","pv_duplicate":"0"}}],
        "lv": [
            {{"lv_name":"data","lv_uuid":"{LV}","vg_uuid":"{VG}","lv_layout":"thin,sparse"}},
            {{"lv_name":"[pool_tdata]","lv_uuid":"111111-aaaa-bbbb-cccc-dddd-eeee-ffffff","vg_uuid":"{VG}","lv_layout":"striped"}},
            {{"lv_name":"[pool_tmeta]","lv_uuid":"222222-aaaa-bbbb-cccc-dddd-eeee-ffffff","vg_uuid":"{VG}","lv_layout":"raid,raid1"}}],
        "pvseg": [], "seg": []
    }}]}}"#
    );
    serde_json::from_str(&text).unwrap()
}

fn text(value: &Value, key: &str) -> Option<String> {
    value.get(key)?.as_str().map(str::to_owned)
}

/// The groups of a report; `None` where a required field is missing.
fn groups(report: &Value) -> Option<Vec<Group>> {
    let mut out = Vec::new();
    for group in report.get("report")?.as_array()? {
        let mut vg = Vec::new();
        for v in group.get("vg")?.as_array()? {
            vg.push(Vg {
                vg_name: text(v, "vg_name")?,
                vg_uuid: text(v, "vg_uuid")?,
                vg_seqno: text(v, "vg_seqno")?,
                pv_count: text(v, "pv_count")?,
                vg_missing_pv_count: text(v, "vg_missing_pv_count")?,
                vg_partial: text(v, "vg_partial")?,
                vg_exported: text(v, "vg_exported")?,
                vg_systemid: text(v, "vg_systemid")?,
                vg_lock_type: text(v, "vg_lock_type")?,
            });
        }
        let mut pv = Vec::new();
        for v in group.get("pv")?.as_array()? {
            let pv_name = text(v, "pv_name")?;
            pv.push(Pv {
                number: resolve_name(&pv_name),
                pv_name,
                pv_uuid: text(v, "pv_uuid")?,
                vg_uuid: text(v, "vg_uuid")?,
                pv_missing: text(v, "pv_missing")?,
                pv_duplicate: text(v, "pv_duplicate")?,
            });
        }
        let mut lv = Vec::new();
        for v in group.get("lv")?.as_array()? {
            lv.push(Lv {
                lv_name: text(v, "lv_name")?,
                lv_uuid: text(v, "lv_uuid")?,
                vg_uuid: text(v, "vg_uuid")?,
                lv_layout: text(v, "lv_layout")?,
            });
        }
        out.push(Group { vg, pv, lv });
    }
    Some(out)
}

fn check_with(
    value: &Value,
    devices: Vec<Device>,
    labels: Table<String>,
) -> Result<VerifiedLvm, ProbeError> {
    let bytes = serde_json::to_vec(value).unwrap();
    validate(bytes.len(), &groups(value), devices, labels, "vg_maki_pg", "data")
}

fn check(value: &Value) -> Result<VerifiedLvm, ProbeError> {
    check_with(value, devices(), labels())
}

fn resolve_name(path: &str) -> Option<(u32, u32)> {
    if path == "/dev/disk/by-id/fixture-pv1" {
        return Some((43, 4));
    }
    devices().iter().find(|device| device.path == path).map(|device| device.number)
}

#[test]
fn multiple_pvs_and_hidden_metadata_lvs_are_supported_without_layout_restriction() {
    let verified = check(&fixture()).unwrap();
    assert_eq!(verified.lvs.len(), 3);
    assert_eq!(verified.vg_uuid, VG);
    assert_eq!(verified.lv_uuid, LV);
    assert_eq!(verified.vg_seqno, 17);
    let mut reordered = fixture();
    reordered["report"][0]["pv"].as_array_mut().unwrap().reverse();
    reordered["report"][0]["lv"].as_array_mut().unwrap().reverse();
    assert!(check(&reordered).unwrap().matches(&verified));
}

#[test]
fn metadata_rejection_covers_missing_foreign_duplicate_and_ambiguous_identity() {
    for (field, value) in [
        ("vg_partial", "1"),
        ("vg_partial", "unknown"),
        ("vg_exported", "1"),
        ("vg_missing_pv_count", "1"),
        ("pv_count", "3"),
        ("vg_systemid", "another-host"),
        ("vg_lock_type", "sanlock"),
        ("vg_uuid", "x || vg_name=foreign"),
        ("vg_seqno", "-1"),
    ] {
        let mut report = fixture();
        report["report"][0]["vg"][0][field] = value.into();
        assert!(check(&report).is_err(), "accepted invalid {field}");
    }
    for (field, value) in [
        ("pv_name", "/dev/sda"),
        ("pv_uuid", PV1),
        ("pv_missing", "1"),
        ("pv_duplicate", "1"),
        ("pv_duplicate", "unknown"),
        ("vg_uuid", PV1),
    ] {
        let mut report = fixture();
        report["report"][0]["pv"][1][field] = value.into();
        assert!(check(&report).is_err(), "accepted invalid PV {field}");
    }
    for (field, value) in [("lv_name", "other"), ("vg_uuid", PV1), ("lv_uuid", "bad")] {
        let mut report = fixture();
        report["report"][0]["lv"][0][field] = value.into();
        assert!(check(&report).is_err(), "accepted invalid LV {field}");
    }
    let mut duplicate = fixture();
    let group = duplicate["report"][0].clone();
    duplicate["report"].as_array_mut().unwrap().push(group);
    assert!(check(&duplicate).is_err());
}

#[test]
fn omitted_independent_label_cannot_be_hidden_by_a_clean_fullreport() {
    let mut report = fixture();
    report["report"][0]["pv"].as_array_mut().unwrap().pop();
    report["report"][0]["vg"][0]["pv_count"] = "1".into();
    assert!(check(&report).is_err());
    let mut independent = labels();
    independent.insert("/dev/nbd3p2", PV1.to_string());
    assert!(check_with(&fixture(), devices(), independent).is_err());
}

#[test]
fn blkid_requires_positive_unambiguous_identity_and_never_assumes_exit_two_is_empty() {
    let probe = |code: i32, bytes: &[u8]| probe_label(code == 0, true, bytes.to_vec());
    let pv = format!("UUID={PV1}\nTYPE=LVM2_member\n");
    assert_eq!(probe(0, pv.as_bytes()).unwrap().as_deref(), Some(PV1));
    assert_eq!(probe(0, b"PTTYPE=gpt\n").unwrap(), None);
    assert_eq!(probe(0, b"TYPE=ext4\nUUID=other\n").unwrap(), None);
    for code in [2, 4, 8] {
        assert!(probe(code, pv.as_bytes()).is_err());
    }
    for bad in [
        "",
        "TYPE=LVM2_member\n",
        "TYPE=LVM2_member\nUUID=bad\n",
        "TYPE=ext4\nTYPE=LVM2_member\n",
        "PART_ENTRY_SCHEME=gpt\n",
    ] {
        assert!(probe(0, bad.as_bytes()).is_err());
    }
    assert!(probe(0, format!("{pv}PTTYPE=gpt\n").as_bytes()).is_err());
    assert!(probe_label(true, false, pv.clone().into_bytes()).is_err());
    assert!(probe(0, &[0xff]).is_err());
}

#[test]
fn report_parse_is_bounded_and_required_fields_cannot_disappear() {
    let oversized = MAX_REPORT + 1;
    assert!(validate(
        oversized,
        &groups(&fixture()),
        devices(),
        labels(),
        "vg_maki_pg",
        "data"
    )
    .is_err());
    let mut report = fixture();
    report["report"][0]["vg"][0].as_object_mut().unwrap().remove("vg_partial");
    assert!(check(&report).is_err());
    assert!(validate(1, &None, devices(), labels(), "vg_maki_pg", "data").is_err());
}

#[test]
fn activation_always_uses_exact_validated_devices_uuid_and_complete_mode() {
    let verified = check(&fixture()).unwrap();
    assert_eq!(
        activation_arguments(&verified),
        [
            "--activate",
            "y",
            "--activationmode",
            "complete",
            "--devices",
            "/dev/nbd3,/dev/nbd3p1,/dev/nbd3p2",
            "--select",
            &format!("vg_uuid={VG}"),
            "--config",
            "devices { allow_changes_with_duplicate_pvs=0 }"
        ]
    );
    let report = report_arguments(&devices());
    let has = |word: &str| report.iter().any(|arg| arg == word);
    assert!(has("--readonly") && has("--all") && has("--devices"));
    assert!(!has("--uuid"));
    assert_eq!(
        deactivation_arguments(&verified),
        [
            "--activate",
            "n",
            "--devices",
            "/dev/nbd3,/dev/nbd3p1,/dev/nbd3p2",
            "--select",
            &format!("vg_uuid={VG}"),
            "--config",
            "devices { allow_changes_with_duplicate_pvs=0 }"
        ]
    );
}

#[test]
fn independently_labelled_pvs_must_not_overlap_underlying_nbd_sectors() {
    let mut overlap = devices();
    overlap[2].start = 256;
    assert!(check_with(&fixture(), overlap, labels()).is_err());
}

fn mapping(node: &str, name: &str, id: &str) -> BlockEntry {
    let mut entry = BlockEntry::named(node);
    entry.dm_name = Some(name.into());
    entry.dm_uuid = Some(id.into());
    entry
}

fn tree(entries: Vec<BlockEntry>) -> BlockTree {
    BlockTree { entries, odd_names: false }
}

fn record() -> BoundDeviceRecord {
    BoundDeviceRecord {
        version: 1,
        volume: "pg".into(),
        device: "/dev/nbd3".into(),
        connection_id: "fixture".into(),
        attachment: AttachmentIdentity {
            volume_uuid: "fixture".into(),
            nbd_socket: "fixture".into(),
            mountpoint: "/mount".into(),
            vg_name: "vg_maki_pg".into(),
            lv_name: "data".into(),
        },
        recovery: None,
        recovery_intent: None,
        growth_target: None,
    }
}

fn target_uuid() -> String {
    format!("LVM-{}{}", VG.replace('-', ""), LV.replace('-', ""))
}

#[test]
fn a_valid_target_uuid_does_not_authorize_an_unreported_same_vg_mapping() {
    let tree = tree(vec![
        mapping("dm-0", "vg_maki_pg-data", &target_uuid()),
        mapping("dm-1", "vg_maki_pg-other", "LVM-foreign"),
    ]);
    assert!(verify_mapping(&record(), &check(&fixture()).unwrap(), &tree).is_err());
}

#[test]
fn pv_report_alias_is_matched_by_device_number() {
    let mut report = fixture();
    report["report"][0]["pv"][0]["pv_name"] = "/dev/disk/by-id/fixture-pv1".into();
    assert!(check(&report).is_ok());
}

#[test]
fn cachevol_synthetic_mapping_ids_are_rejected_before_activation() {
    let mut report = fixture();
    report["report"][0]["lv"][1]["lv_layout"] = "cache,cachevol".into();
    assert!(check(&report).is_err());
}

#[test]
fn kernel_partition_parent_geometry_device_number_and_holders_are_verified() {
    for fault in ["none", "parent", "number", "range", "overflow", "holder"] {
        let mut root = BlockEntry::named("nbd3");
        root.dev = Some("43:3".into());
        root.size = Some("4096".into());
        root.holders = Some(vec![]);
        root.node = Some((43, 3));
        let mut partition = BlockEntry::named("nbd3p1");
        partition.dev = Some("43:4".into());
        partition.partition = Some("1".into());
        partition.start = Some("128".into());
        partition.size = Some("512".into());
        partition.holders = Some(vec![]);
        partition.parent = Some("nbd3".into());
        partition.node = Some((43, 4));
        match fault {
            "parent" => partition.parent = Some("foreign".into()),
            "number" => {
                root.node = Some((8, 0));
                partition.node = Some((8, 0));
            }
            "range" => partition.start = Some("4000".into()),
            "overflow" => partition.start = Some(u64::MAX.to_string()),
            "holder" => partition.holders = Some(vec!["dm-0".into()]),
            _ => {}
        }
        let result = discover_at(&tree(vec![root, partition]), "/dev/nbd3");
        assert_eq!(result.is_ok(), fault == "none", "unexpected outcome for {fault}");
        if let Ok(found) = result {
            assert_eq!(found.len(), 2);
            assert_eq!((found[1].start, found[1].sectors), (128, 512));
        }
    }
}

#[test]
fn known_internal_lvm_layers_are_owned_and_partial_activation_can_be_rolled_back() {
    let verified = check(&fixture()).unwrap();
    let internal = "111111aaaabbbbccccddddeeeeffffff";
    for layer in ["real", "tpool", "tdata", "tmeta", "cdata", "cmeta", "cvol", "pool"] {
        let inner = || {
            mapping(
                "dm-1",
                "vg_maki_pg-pool_tdata",
                &format!("LVM-{}{internal}-{layer}", VG.replace('-', "")),
            )
        };
        let partial = tree(vec![inner()]);
        assert!(verify_rollback_mapping(&record(), &verified, &partial).is_ok());
        assert!(
            verify_mapping(&record(), &verified, &partial).is_err(),
            "workload target must exist"
        );
        let complete =
            tree(vec![inner(), mapping("dm-0", "vg_maki_pg-data", &target_uuid())]);
        assert!(verify_mapping(&record(), &verified, &complete).is_ok());
    }
}

#[test]
fn unknown_internal_mapping_uuid_suffix_is_not_owned() {
    let verified = check(&fixture()).unwrap();
    let internal = "111111aaaabbbbccccddddeeeeffffff";
    let tree = tree(vec![mapping(
        "dm-0",
        "vg_maki_pg-pool_tdata",
        &format!("LVM-{}{internal}-foreign", VG.replace('-', "")),
    )]);
    assert!(verify_rollback_mapping(&record(), &verified, &tree).is_err());
}

#[test]
fn layout_changes_participate_in_fresh_metadata_equality_and_separator_is_fixed() {
    let first = check(&fixture()).unwrap();
    let mut changed = fixture();
    changed["report"][0]["lv"][1]["lv_layout"] = "linear".into();
    assert!(!check(&changed).unwrap().matches(&first));
    changed["report"][0]["lv"][1]["lv_layout"] = "cache|cachevol".into();
    assert!(check(&changed).is_err());
    changed["report"][0]["lv"][1].as_object_mut().unwrap().remove("lv_layout");
    assert!(check(&changed).is_err());
    assert!(report_arguments(&devices())
        .iter()
        .any(|arg| arg == r#"report { list_item_separator="," }"#));
}

#[test]
fn whole_device_pv_overlapping_a_partition_pv_is_rejected() {
    let mut report = fixture();
    report["report"][0]["pv"][0]["pv_name"] = "/dev/nbd3".into();
    let labels = table(&[("/dev/nbd3", PV1), ("/dev/nbd3p2", PV2)]);
    assert!(check_with(&report, devices(), labels).is_err());
}

#[test]
fn activation_is_authorized_only_by_unchanged_metadata_and_an_idle_device() {
    let verified = check(&fixture()).unwrap();
    let idle = DetachObservation { mounted: false, vg_active: false, nbd_in_use: false };
    assert!(authorize_activation(&verified, &check(&fixture()).unwrap(), &devices(), &idle).is_ok());
    let mut newer = fixture();
    newer["report"][0]["vg"][0]["vg_seqno"] = "18".into();
    assert!(authorize_activation(&verified, &check(&newer).unwrap(), &devices(), &idle).is_err());
    let mut moved = devices();
    moved[1].number = (43, 9);
    assert!(authorize_activation(&verified, &check(&fixture()).unwrap(), &moved, &idle).is_err());
    let busy = DetachObservation { nbd_in_use: true, ..idle };
    assert!(check_inactive(&busy).is_err());
    assert!(authorize_activation(&verified, &check(&fixture()).unwrap(), &devices(), &busy).is_err());
    assert!(check_report(true, true).is_ok());
    assert!(check_report(true, false).is_err() && check_report(false, true).is_err());
    let nodes = vec![Some((43, 3)), Some((43, 4)), Some((43, 5))];
    assert!(check_nodes(&verified, &nodes));
    assert!(!check_nodes(&verified, &vec![Some((43, 3)), None, Some((43, 5))]));
}

#[test]
fn labels_are_collected_once_each() {
    let probed = vec![None, Some(PV1.to_string()), Some(PV2.to_string())];
    let labels = collect_labels(&devices(), &probed).unwrap();
    assert_eq!(labels.get("/dev/nbd3p2").map(|l| l.as_str()), Some(PV2));
    assert_eq!(labels.len(), 2);
    let twice = vec![None, Some(PV1.to_string()), Some(PV1.to_string())];
    assert!(collect_labels(&devices(), &twice).is_err());
    assert!(is_lvm_uuid(VG) && !is_lvm_uuid("bad") && !is_lvm_uuid(&VG[1..]));
}

#[test]
fn a_recovery_needs_the_very_devices_that_were_verified() {
    let verified = VerifiedLvm {
        devices: vec![device("/dev/nbd3", (43, 3), 0, 4096)],
        ..check(&fixture()).unwrap()
    };
    let mut root = BlockEntry::named("nbd3");
    root.dev = Some("43:3".into());
    root.size = Some("4096".into());
    let mut same = tree(vec![root]);
    assert!(verify_recovery_device_identity(&record(), &verified, &same).is_ok());
    same.entries[0].size = Some("4095".into());
    assert!(verify_recovery_device_identity(&record(), &verified, &same).is_err());
    same.entries[0].size = Some("4096".into());
    same.entries[0].dev = Some("43:9".into());
    assert!(verify_recovery_device_identity(&record(), &verified, &same).is_err());
}

#[test]
fn a_label_is_read_from_the_candidate_itself() {
    assert_eq!(
        label_arguments("/proc/7/fd/3"),
        [
            "--probe", "--output", "export", "--match-tag", "TYPE", "--match-tag", "UUID",
            "--match-tag", "PTTYPE", "/proc/7/fd/3",
        ]
    );
    let candidate = device("/dev/nbd3", (43, 3), 0, 4096);
    assert!(check_label_device(&candidate, true, (43, 3)).is_ok());
    let replaced = ProbeError::Invalid("PV label probe device was replaced".into());
    assert_eq!(check_label_device(&candidate, false, (43, 3)), Err(replaced));
    assert!(check_label_device(&candidate, true, (43, 4)).is_err());
    assert!(check_label_device(&candidate, true, (8, 3)).is_err());
}
