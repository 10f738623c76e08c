//! Plans, attach configuration, argument hygiene and the mount verifier.

use maki::config::{
    check_abs_path, check_argument, check_lvm_name, check_uuid, check_volume_name, default_path,
    AttachConfig, AttachOverrides,
};
use maki::exec::ATTACH_LOCK_PATH;
use maki::plan::{
    bound_device_record_path, plan_attach, plan_detach, plan_grow, rollback_steps, AttachRequest,
    GrowRequest, PlannedStep, AUTO_NBD_DEVICE, BOUND_DEVICE_RECORD_DIR,
};
use maki::probe::{
    choose_free_nbd, nbd_device_of, nbd_index, parse_mountinfo, resolve_leaf_devices, unescape,
};
use maki::state::{trusted_directory, FileFacts};
use maki::verify::{
    verify_mount_device, verify_mount_identity, MountExpectation, MountObservation,
};

const UUID: &str = "0f7c2b1a-3d4e-4f5a-8b6c-7d8e9f0a1b2c";

fn postgres() -> AttachRequest {
    AttachRequest {
        volume: "postgres".to_string(),
        nbd_socket: "/run/maki/postgres/nbd.sock".to_string(),
        nbd_device: "/dev/nbd0".to_string(),
        device_block_size: 4096,
        vg_name: "vg_maki_postgres".to_string(),
        lv_name: "data".to_string(),
        mountpoint: "/srv/postgres".to_string(),
        volume_uuid: "0123-4567".to_string(),
        fs_uuid: None,
        init_sentinel: false,
    }
}

fn config() -> AttachConfig {
    AttachConfig {
        volume_uuid: Some(UUID.to_string()),
        mountpoint: Some("/srv/pg".to_string()),
        vg_name: Some("vg_maki_pg".to_string()),
        device_block_size: Some(4096),
        ..AttachConfig::default()
    }
}

fn request() -> AttachRequest {
    config().into_request("pg", AttachOverrides::default(), true).unwrap()
}

fn kinds(steps: &[PlannedStep]) -> Vec<&'static str> {
    steps.iter().map(|s| s.kind()).collect()
}

// ---------- plans ----------

#[test]
fn attach_plan_has_expected_step_order() {
    let plan = plan_attach(&postgres());
    assert_eq!(
        kinds(&plan.steps),
        [
            "modprobe-nbd",
            "nbd-connect",
            "set-block-size",
            "lvm-activate",
            "mount-xfs",
            "verify-mount-identity",
        ]
    );
}

#[test]
fn plans_contain_no_credential_material() {
    let rendered = format!(
        "{}\n{}\n{}",
        plan_attach(&postgres()).to_string(),
        plan_detach(&postgres()).to_string(),
        plan_grow(&GrowRequest {
            volume: "postgres".into(),
            vg_name: "vg_maki_postgres".into(),
            lv_name: "data".into(),
            add_bytes: 10 << 30,
            mountpoint: "/srv/postgres".into(),
        })
        .to_string()
    );
    let lower = rendered.to_lowercase();
    for forbidden in ["credential", "token", "secret", "key=", "tls", "authorization"] {
        assert!(
            !lower.contains(forbidden),
            "plan leaked credential-adjacent term {forbidden:?}:\n{rendered}"
        );
    }
}

#[test]
fn detach_plan_reverses_attach() {
    let plan = plan_detach(&postgres());
    assert_eq!(
        kinds(&plan.steps),
        ["umount", "lvm-deactivate", "nbd-disconnect"],
        "detach must unmount before disconnecting NBD"
    );
}

#[test]
fn grow_plan_is_lvextend_then_xfs_growfs() {
    let plan = plan_grow(&GrowRequest {
        volume: "postgres".into(),
        vg_name: "vg".into(),
        lv_name: "data".into(),
        add_bytes: 1 << 30,
        mountpoint: "/srv/postgres".into(),
    });
    assert_eq!(kinds(&plan.steps), ["lvextend", "xfs-growfs"]);
    assert!(plan.to_string().contains("lvextend -L +1073741824b vg/data"));
}

#[test]
fn attach_plan_binds_the_allocated_device_everywhere() {
    let mut plan = plan_attach(&request());
    assert!(plan.needs_device_allocation());
    assert!(plan.to_string().contains(AUTO_NBD_DEVICE));
    plan.bind_device("/dev/nbd3");
    assert!(!plan.needs_device_allocation());
    let rendered = plan.to_string();
    assert!(!rendered.contains("<auto>"), "{rendered}");
    assert!(rendered.contains("nbd-client -unix /run/maki/pg/nbd.sock /dev/nbd3 -b 4096"));
    assert!(rendered.contains("blockdev --setbsz 4096 /dev/nbd3"));
    assert!(rendered.contains("nbd /dev/nbd3)"), "{rendered}");
    let mut detach = plan_detach(&request());
    detach.bind_device("/dev/nbd3");
    assert!(detach.to_string().contains("nbd-client -d /dev/nbd3"));
}

#[test]
fn nbd_connect_uses_the_configured_block_size() {
    let mut cfg = config();
    cfg.device_block_size = Some(512);
    let plan =
        plan_attach(&cfg.into_request("pg", AttachOverrides::default(), true).unwrap()).to_string();
    assert!(plan.contains("-b 512"), "{plan}");
    assert!(plan.contains("--setbsz 512"), "{plan}");
}

#[test]
fn init_sentinel_adds_a_write_step_before_verification() {
    let mut cfg = config();
    cfg.init_sentinel = true;
    let plan = plan_attach(&cfg.into_request("pg", AttachOverrides::default(), true).unwrap());
    assert_eq!(
        kinds(&plan.steps),
        [
            "modprobe-nbd",
            "nbd-connect",
            "set-block-size",
            "lvm-activate",
            "mount-xfs",
            "write-sentinel",
            "verify-mount-identity"
        ]
    );
}

#[test]
fn rollback_reverses_the_executed_prefix() {
    let plan = plan_attach(&request());
    // Failure at verify: everything before it ran.
    let executed: Vec<PlannedStep> = plan.steps[..5].to_vec();
    assert_eq!(
        kinds(&rollback_steps(&executed)),
        ["umount", "lvm-deactivate", "nbd-disconnect"]
    );
    // Failure right after nbd-connect: only the disconnect.
    assert_eq!(kinds(&rollback_steps(&plan.steps[..2])), ["nbd-disconnect"]);
    assert!(rollback_steps(&[]).is_empty());
    assert!(rollback_steps(&plan.steps[..1]).is_empty(), "modprobe needs no undo");
}

#[test]
fn plan_describes_conditional_verified_activation_without_claiming_to_have_probed() {
    let step = PlannedStep::LvmActivate { vg_name: "vg_maki_pg".into() };
    let description = step.to_string();
    assert!(
        description.contains("preflight")
            && description.contains("UUID")
            && description.contains("devices")
    );
}

#[test]
fn a_detach_takes_back_what_the_attach_of_a_pinned_device_did() {
    let mut pinned = request();
    pinned.nbd_device = "/dev/nbd3".into();
    let attach = plan_attach(&pinned);
    assert_eq!(rollback_steps(&attach.steps), plan_detach(&pinned).steps);
}

// ---------- state paths ----------

#[test]
fn helper_records_have_their_own_root_owned_runtime_directory() {
    assert_eq!(BOUND_DEVICE_RECORD_DIR, "/run/maki-attach");
    assert_eq!(bound_device_record_path("pg"), "/run/maki-attach/pg.nbd");
    let directory =
        |mode: u32, uid: u32| FileFacts { is_dir: true, is_file: false, uid, mode, nlink: 2 };
    assert!(trusted_directory(&directory(0o40700, 0), 0).is_ok());
    assert!(trusted_directory(&directory(0o40770, 0), 0).is_err());
    assert!(trusted_directory(&directory(0o40700, 1000), 0).is_err());
}

#[test]
fn attach_lock_shares_the_trusted_state_directory() {
    assert_eq!(ATTACH_LOCK_PATH, "/run/maki-attach/attach.lock");
    assert!(ATTACH_LOCK_PATH.starts_with(BOUND_DEVICE_RECORD_DIR));
}

// ---------- configuration ----------

#[test]
fn config_resolves_defaults_and_auto_device() {
    let request = request();
    assert_eq!(request.nbd_device, AUTO_NBD_DEVICE);
    assert_eq!(request.nbd_socket, "/run/maki/pg/nbd.sock");
    assert_eq!(request.lv_name, "data");
    assert_eq!(request.mountpoint, "/srv/pg");
    assert_eq!(request.volume_uuid, UUID);
    assert!(!request.init_sentinel);
    assert_eq!(default_path("pg"), "/etc/maki/attach/pg.toml");
}

#[test]
fn execution_requires_a_volume_uuid_but_plan_rendering_does_not() {
    let cfg = AttachConfig::default();
    let err = cfg.clone().into_request("pg", AttachOverrides::default(), true).unwrap_err();
    assert!(err.to_string().contains("volume_uuid"), "{}", err.to_string());
    let request = cfg.into_request("pg", AttachOverrides::default(), false).unwrap();
    assert_eq!(request.volume_uuid, "<unset>");
}

#[test]
fn overrides_win_and_are_validated() {
    let cfg = config();
    let request = cfg
        .clone()
        .into_request(
            "pg",
            AttachOverrides {
                nbd_device: Some("/dev/nbd7".into()),
                mountpoint: Some("/mnt/pg".into()),
                ..AttachOverrides::default()
            },
            true,
        )
        .unwrap();
    assert_eq!(request.nbd_device, "/dev/nbd7");
    assert_eq!(request.mountpoint, "/mnt/pg");

    for (field, value) in [
        ("nbd_device", "-d"),
        ("nbd_device", "/dev/sda"),
        ("nbd_device", "/dev/nbd"),
        ("nbd_device", "/dev/nbdfoo"),
        ("nbd_device", "/dev/nbd0p1"),
        ("mountpoint", "srv/pg"),
        ("mountpoint", "/srv/../etc"),
        ("mountpoint", "/srv/pg/"),
        ("vg_name", "vg/evil"),
        ("vg_name", "--force"),
        ("volume_uuid", "not-a-uuid"),
        ("fs_uuid", "zz7c2b1a-3d4e-4f5a-8b6c-7d8e9f0a1b2c"),
    ] {
        let mut overrides = AttachOverrides::default();
        match field {
            "nbd_device" => overrides.nbd_device = Some(value.into()),
            "mountpoint" => overrides.mountpoint = Some(value.into()),
            "vg_name" => overrides.vg_name = Some(value.into()),
            "volume_uuid" => overrides.volume_uuid = Some(value.into()),
            "fs_uuid" => overrides.fs_uuid = Some(value.into()),
            _ => unreachable!(),
        }
        let err = cfg
            .clone()
            .into_request("pg", overrides, true)
            .expect_err(&format!("{field}={value} must be rejected"));
        assert!(err.to_string().contains(field), "{field}: {}", err.to_string());
    }
    assert!(config().into_request("bad name", AttachOverrides::default(), true).is_err());
}

#[test]
fn argument_hygiene() {
    assert!(check_argument("x", "value").is_ok());
    assert!(check_argument("x", "").is_err());
    assert!(check_argument("x", "-rf").is_err());
    assert!(check_argument("x", "a\nb").is_err());
    assert!(check_abs_path("p", "/a/b").is_ok());
    assert!(check_abs_path("p", "/").is_ok());
    assert!(check_abs_path("p", "a/b").is_err());
    assert!(check_abs_path("p", "/a//b").is_err());
    assert!(check_abs_path("p", "/a/./b").is_err());
    assert!(check_uuid("u", UUID).is_ok());
    assert!(check_uuid("u", &UUID.to_uppercase()).is_ok());
    assert!(check_uuid("u", "0f7c2b1a3d4e4f5a8b6c7d8e9f0a1b2c").is_err());
}

#[test]
fn names_are_held_to_their_alphabet() {
    assert!(check_volume_name("pg-1_a").is_ok());
    assert!(check_volume_name("../pg").is_err());
    assert!(check_lvm_name("vg_name", "vg_maki-pg").is_ok());
    let error = check_lvm_name("vg_name", "vg/x").unwrap_err().to_string();
    assert!(error.contains("vg_name") && error.contains("\"vg/x\""), "{error}");
}

// ---------- probes ----------

const MOUNTINFO: &str = "\
25 1 8:1 / / rw,relatime - ext4 /dev/sda1 rw
40 25 253:2 / /srv/pg rw,noatime - xfs /dev/mapper/vg_maki_pg-data rw
41 25 0:44 / /srv/my\\040vol rw - xfs /dev/mapper/vg-x rw
42 25 253:3 / /srv/pg rw - ext4 /dev/mapper/other rw
";

#[test]
fn mountinfo_parsing_finds_the_visible_mount_and_decodes_escapes() {
    let entry = parse_mountinfo(MOUNTINFO, "/srv/pg").unwrap();
    assert_eq!(entry.fstype, "ext4", "the last (topmost) mount wins");
    assert_eq!(entry.source, "/dev/mapper/other");
    let first_two: String = MOUNTINFO.lines().take(2).collect::<Vec<_>>().join("\n");
    let entry = parse_mountinfo(&first_two, "/srv/pg").unwrap();
    assert_eq!(entry.fstype, "xfs");
    assert_eq!(entry.source, "/dev/mapper/vg_maki_pg-data");
    let spaced = parse_mountinfo(MOUNTINFO, "/srv/my vol").unwrap();
    assert_eq!(spaced.source, "/dev/mapper/vg-x");
    assert!(parse_mountinfo(MOUNTINFO, "/srv/nothing").is_none());
    assert!(parse_mountinfo("garbage line\n", "/").is_none());
}

#[test]
fn of_two_mount_tables_the_second_decides() {
    let a = "25 1 8:1 / /srv/pg rw - xfs /dev/a rw";
    let b = "26 1 8:2 / /srv/pg rw - ext4 /dev/b rw";
    let other = "27 1 8:3 / /srv/other rw - ext4 /dev/c rw";
    let source = |text: &str| parse_mountinfo(text, "/srv/pg").map(|entry| entry.source);
    assert_eq!(source(&format!("{a}\n{b}")).as_deref(), Some("/dev/b"));
    assert_eq!(source(&format!("{b}\n{a}")).as_deref(), Some("/dev/a"));
    assert_eq!(source(&format!("{a}\n{other}")).as_deref(), Some("/dev/a"));
    assert_eq!(source(&format!("{a}\r\n{other}\n")).as_deref(), Some("/dev/a"));
    assert_eq!(source(&format!("{a}\n\n")).as_deref(), Some("/dev/a"));
    assert_eq!(source(other), None);
}

#[test]
fn leaves_are_found_behind_cycles() {
    let slaves = vec![
        ("dm-1".to_string(), vec!["dm-0".to_string(), "dm-1".to_string()]),
        ("dm-0".to_string(), vec!["dm-1".to_string(), "sda".to_string()]),
    ];
    assert_eq!(resolve_leaf_devices("dm-1", &slaves), ["sda"]);
    assert!(resolve_leaf_devices("dm-1", &slaves[..1].to_vec()).contains(&"dm-0".to_string()));
}

#[test]
fn escapes_are_octal_and_everything_else_is_kept() {
    assert_eq!(unescape("a\\040b\\134c"), "a b\\c");
    assert_eq!(unescape("plain\\9"), "plain\\9");
}

#[test]
fn free_nbd_allocation_picks_the_lowest_unconnected_device() {
    let devices = vec![
        ("nbd0".to_string(), true),
        ("nbd10".to_string(), false),
        ("nbd2".to_string(), false),
        ("nbd1".to_string(), true),
        ("sda".to_string(), false),
    ];
    assert_eq!(choose_free_nbd(&devices).as_deref(), Some("/dev/nbd2"));
    assert!(choose_free_nbd(&[("nbd0".to_string(), true)]).is_none());
    assert!(choose_free_nbd(&[]).is_none());
    assert_eq!(nbd_index("/dev/nbd12"), Some(12));
    assert_eq!(nbd_index("/dev/sda"), None);
}

#[test]
fn leaves_are_the_devices_without_slaves() {
    let slaves = [
        ("dm-1".to_string(), vec!["dm-0".to_string()]),
        ("dm-0".to_string(), vec!["nbd3p1".to_string(), "sda".to_string()]),
        ("nbd3p1".to_string(), vec![]),
    ];
    let mut leaves = resolve_leaf_devices("dm-1", &slaves);
    leaves.sort();
    assert_eq!(leaves, ["nbd3p1", "sda"]);
    assert_eq!(nbd_device_of("nbd3p1").as_deref(), Some("/dev/nbd3"));
    assert_eq!(nbd_device_of("nbd3").as_deref(), Some("/dev/nbd3"));
    assert_eq!(nbd_device_of("sda"), None);
}

// ---------- the verifier stays strict ----------

fn good_observation() -> MountObservation {
    MountObservation {
        mountpoint_exists: true,
        fstype: Some("xfs".to_string()),
        fs_uuid: Some("AAAA-BBBB".to_string()),
        sentinel_volume_uuid: Some("0123-4567".to_string()),
        nbd_connected: true,
        rw_probe_ok: true,
        backing_devices: vec!["/dev/nbd0".to_string()],
    }
}

fn expectation() -> MountExpectation {
    MountExpectation {
        fs_uuid: Some("AAAA-BBBB".to_string()),
        volume_uuid: "0123-4567".to_string(),
        nbd_device: "/dev/nbd0".to_string(),
    }
}

#[test]
fn mount_identity_accepts_matching_mount() {
    verify_mount_identity(&expectation(), &good_observation()).unwrap();
}

#[test]
fn mount_identity_rejects_every_mismatch() {
    type Mutation = Box<dyn Fn(&mut MountObservation)>;
    let cases: Vec<(&str, Mutation)> = vec![
        ("missing mountpoint", Box::new(|o| o.mountpoint_exists = false)),
        ("wrong fstype", Box::new(|o| o.fstype = Some("ext4".into()))),
        ("wrong fs uuid", Box::new(|o| o.fs_uuid = Some("XXXX".into()))),
        ("wrong volume uuid", Box::new(|o| o.sentinel_volume_uuid = Some("9999".into()))),
        ("missing sentinel", Box::new(|o| o.sentinel_volume_uuid = None)),
        ("nbd down", Box::new(|o| o.nbd_connected = false)),
        ("probe failed", Box::new(|o| o.rw_probe_ok = false)),
        ("other disk", Box::new(|o| o.backing_devices = vec!["/dev/sda".into()])),
        ("unresolved disk", Box::new(|o| o.backing_devices = vec![])),
    ];
    for (name, mutate) in cases {
        let mut obs = good_observation();
        mutate(&mut obs);
        assert!(
            verify_mount_identity(&expectation(), &obs).is_err(),
            "case {name:?} must fail — the container must not start"
        );
    }
}

#[test]
fn verifier_rejects_wrong_device_and_missing_sentinel() {
    let expected = MountExpectation {
        fs_uuid: Some("f".repeat(8)),
        volume_uuid: UUID.to_string(),
        nbd_device: "/dev/nbd0".to_string(),
    };
    let mut observed = MountObservation {
        mountpoint_exists: true,
        fstype: Some("xfs".into()),
        fs_uuid: Some("f".repeat(8)),
        sentinel_volume_uuid: Some(UUID.into()),
        nbd_connected: true,
        rw_probe_ok: true,
        backing_devices: vec!["/dev/nbd0".to_string()],
    };
    verify_mount_identity(&expected, &observed).unwrap();
    observed.sentinel_volume_uuid = None;
    assert!(verify_mount_identity(&expected, &observed).is_err());
    observed.sentinel_volume_uuid = Some(UUID.into());
    observed.fs_uuid = Some("other".into());
    assert!(verify_mount_identity(&expected, &observed).is_err());
}

#[test]
fn a_mount_on_another_disk_is_refused_before_anything_is_written() {
    let mut observed = good_observation();
    verify_mount_device("/dev/nbd0", &observed).unwrap();
    observed.backing_devices = vec!["/dev/nbd0".into(), "/dev/sda".into()];
    let error = verify_mount_device("/dev/nbd0", &observed).unwrap_err();
    assert!(error.to_string().starts_with("secure mount validation failed: "));
}
