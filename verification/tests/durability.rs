//! The durability contract: the reference model, the crashable backing and the
//! random sequences that hold one against the other.

use rand::rngs::StdRng;
use rand::{Rng, SeedableRng};

use maki::crash_backing::{
    BackingError, CrashFile, CrashableBacking, ErrorKind, Fate, OpFate, Tear,
};
use maki::model::ReferenceBlockModel;
use maki::oracle::{kind_of, play_sequence, run_random_sequence, OpKind, Run, SequenceConfig};

const UNIT: usize = 512;

fn opened(backing: &mut CrashableBacking, path: &str) -> CrashFile {
    backing.open(path, false, None).unwrap()
}

/// A durable file of `units` zeroed units.
fn prepared(units: u64) -> (CrashableBacking, CrashFile) {
    let mut backing = CrashableBacking::new();
    let file = backing.open("data", true, None).unwrap();
    backing.set_len(&file, units * UNIT as u64, None).unwrap();
    backing.sync_data(&file, None).unwrap();
    backing.sync_dir("", None).unwrap();
    (backing, file)
}

#[test]
fn normal_write_then_crash_may_be_old_or_new() {
    let mut saw_old = false;
    let mut saw_new = false;
    for seed in 0..200u64 {
        let mut rng = StdRng::seed_from_u64(seed);
        let (mut backing, file) = prepared(1);
        let mut model = ReferenceBlockModel::new(UNIT, 1);

        let new = vec![7u8; UNIT];
        backing.write_at(&file, 0, &new, None).unwrap();
        model.write(0, &new);

        backing.crash(&mut rng);

        let file = opened(&mut backing, "data");
        let actual = backing.read_at(&file, 0, UNIT).unwrap();
        model.crash_adopt(0, &actual).expect("oracle violation");

        if actual == new {
            saw_new = true;
        } else if actual == vec![0u8; UNIT] {
            saw_old = true;
        } else {
            panic!("crash produced impossible content");
        }
    }
    assert!(saw_old, "crash never lost an unflushed write");
    assert!(saw_new, "crash never kept an unflushed write");
}

#[test]
fn fua_write_then_crash_is_durable() {
    for seed in 0..100u64 {
        let mut rng = StdRng::seed_from_u64(seed);
        let (mut backing, file) = prepared(1);
        let mut model = ReferenceBlockModel::new(UNIT, 1);
        let new = vec![9u8; UNIT];
        // FUA = write + immediate data sync.
        backing.write_at(&file, 0, &new, None).unwrap();
        backing.sync_data(&file, None).unwrap();
        model.write_fua(0, &new);

        backing.crash(&mut rng);

        let file = opened(&mut backing, "data");
        let actual = backing.read_at(&file, 0, UNIT).unwrap();
        model.crash_adopt(0, &actual).expect("FUA durability violated");
        assert_eq!(actual, new, "FUA write lost at seed {seed}");
    }
}

#[test]
fn flush_then_crash_is_durable() {
    for seed in 0..100u64 {
        let mut rng = StdRng::seed_from_u64(seed);
        let (mut backing, file) = prepared(2);
        let mut model = ReferenceBlockModel::new(UNIT, 2);
        let a = vec![1u8; UNIT];
        let b = vec![2u8; UNIT];
        backing.write_at(&file, 0, &a, None).unwrap();
        model.write(0, &a);
        backing.write_at(&file, UNIT as u64, &b, None).unwrap();
        model.write(1, &b);

        // FLUSH
        backing.sync_data(&file, None).unwrap();
        model.flush();

        // A post-flush write may be old or new.
        let c = vec![3u8; UNIT];
        backing.write_at(&file, 0, &c, None).unwrap();
        model.write(0, &c);

        backing.crash(&mut rng);

        let file = opened(&mut backing, "data");
        let u0 = backing.read_at(&file, 0, UNIT).unwrap();
        let u1 = backing.read_at(&file, UNIT as u64, UNIT).unwrap();
        model.crash_adopt(0, &u0).expect("unit 0 violated");
        model.crash_adopt(1, &u1).expect("unit 1 violated");
        assert_eq!(u1, b, "flushed unit 1 lost at seed {seed}");
        assert!(u0 == a || u0 == c, "unit 0 impossible content");
    }
}

#[test]
fn partial_record_torn_write_is_detectable() {
    let mut backing = CrashableBacking::new();
    let file = backing.open("seg", true, None).unwrap();
    backing.set_len(&file, 0, None).unwrap();
    backing.sync_data(&file, None).unwrap();
    backing.sync_dir("", None).unwrap();

    // Frame: [len u32][crc32 u32][payload]
    let payload = vec![0x5Au8; 300];
    let mut record = Vec::new();
    record.extend_from_slice(&(payload.len() as u32).to_le_bytes());
    record.extend_from_slice(&crc32fast::hash(&payload).to_le_bytes());
    record.extend_from_slice(&payload);

    backing.write_at(&file, 0, &record, None).unwrap();
    // Crash keeping only a 128-byte prefix of the (unsynced) record.
    backing.crash_keep_torn_prefix("seg", 128);

    let file = opened(&mut backing, "seg");
    let flen = backing.len(&file).unwrap();
    assert_eq!(flen, 128, "torn prefix length");

    // Reader: header present but payload short => partial record detected.
    let hdr = backing.read_at(&file, 0, 8).unwrap();
    let len = u32::from_le_bytes(hdr[0..4].try_into().unwrap()) as u64;
    let crc = u32::from_le_bytes(hdr[4..8].try_into().unwrap());
    let complete = 8 + len <= flen;
    assert!(!complete, "partial record must be detected as incomplete");

    // And even if length looked plausible, CRC must not validate garbage.
    let avail = (flen - 8) as usize;
    let tail = backing.read_at(&file, 8, avail).unwrap();
    assert_ne!(crc32fast::hash(&tail), crc, "torn payload must fail CRC");
}

#[test]
fn a_torn_last_write_leaves_what_earlier_writes_put_behind_it() {
    let mut backing = CrashableBacking::new();
    let file = backing.open("seg", true, None).unwrap();
    backing.write_at(&file, 0, &[1, 1, 1, 1], None).unwrap();
    backing.write_at(&file, 0, &[2, 2], None).unwrap();
    backing.crash_keep_torn_prefix("seg", 1);
    let file = opened(&mut backing, "seg");
    assert_eq!(backing.len(&file).unwrap(), 4);
    assert_eq!(backing.read_at(&file, 0, 4).unwrap(), [2, 1, 1, 1]);
}

#[test]
fn unsynced_file_creation_is_lost_after_crash() {
    // Without sync_dir: creation lost.
    let mut backing = CrashableBacking::new();
    backing.create_dir_all("data");
    backing.sync_dir("", None).unwrap();
    let f = backing.open("data/slot-5", true, None).unwrap();
    backing.write_at(&f, 0, b"ciphertext", None).unwrap();
    backing.sync_data(&f, None).unwrap(); // data synced, dirent not
    backing.crash_all_lost();
    assert!(
        !backing.exists_path("data/slot-5"),
        "unsynced file creation must not survive crash"
    );

    // With sync_dir: creation survives even crash_all_lost.
    let mut backing = CrashableBacking::new();
    backing.create_dir_all("data");
    backing.sync_dir("", None).unwrap();
    let f = backing.open("data/slot-5", true, None).unwrap();
    backing.write_at(&f, 0, b"ciphertext", None).unwrap();
    backing.sync_data(&f, None).unwrap();
    backing.sync_dir("data", None).unwrap();
    backing.crash_all_lost();
    assert!(backing.exists_path("data/slot-5"));
    let f = opened(&mut backing, "data/slot-5");
    assert_eq!(backing.read_at(&f, 0, 10).unwrap(), b"ciphertext");
}

#[test]
fn phase0_gate_randomized_sequences_smoke() {
    let cfg = SequenceConfig { num_units: 8, unit_size: 256, ops: 60 };
    for seed in 0..500u64 {
        run_random_sequence(seed, &cfg)
            .unwrap_or_else(|v| panic!("seed {seed}: {}", v.to_string()));
    }
}

#[test]
fn oracle_rejects_impossible_content() {
    let mut model = ReferenceBlockModel::new(4, 1);
    model.write(0, &[1, 1, 1, 1]);
    model.flush();
    model.write(0, &[2, 2, 2, 2]);
    // 3,3,3,3 was never written: violation.
    assert!(model.crash_adopt(0, &[3, 3, 3, 3]).is_err());
    // both old-durable and pending-new are fine
    assert!(model.crash_adopt(0, &[1, 1, 1, 1]).is_ok());
}

#[test]
fn sequences_are_reproducible() {
    let cfg = SequenceConfig { num_units: 4, unit_size: 128, ops: 30 };
    let mut rng = StdRng::seed_from_u64(7);
    let _: u64 = rng.random();
    run_random_sequence(1234, &cfg).unwrap();
    run_random_sequence(1234, &cfg).unwrap();
}

#[test]
fn the_model_reads_the_newest_write_and_lists_what_a_crash_may_leave() {
    let mut model = ReferenceBlockModel::new(2, 3);
    assert_eq!(model.unit_size(), 2);
    assert_eq!(model.num_units(), 3);
    assert_eq!(model.read(1), vec![0, 0]);
    model.write(1, &[1, 2]);
    model.write(1, &[3, 4]);
    assert_eq!(model.read(1), vec![3, 4]);
    let mut allowed = model.allowed_after_crash(1);
    allowed.sort();
    assert_eq!(allowed, vec![vec![0, 0], vec![1, 2], vec![3, 4]]);
    model.write_fua(1, &[5, 6]);
    assert_eq!(model.allowed_after_crash(1), vec![vec![5, 6]]);
    assert_eq!(model.allowed_after_crash(0), vec![vec![0, 0]]);
}

#[test]
fn adopting_a_surviving_write_makes_it_the_only_possible_content() {
    let mut model = ReferenceBlockModel::new(1, 1);
    model.write(0, &[1]);
    model.write(0, &[2]);
    model.crash_adopt(0, &[1]).unwrap();
    assert_eq!(model.read(0), vec![1]);
    assert_eq!(model.allowed_after_crash(0), vec![vec![1]]);
    let violation = model.crash_adopt(0, &[2]).unwrap_err();
    assert!(violation.to_string().contains('0'), "{}", violation.to_string());
}

#[test]
fn reads_beyond_the_end_and_missing_files_are_refused() {
    let mut backing = CrashableBacking::new();
    let error = backing.open("absent", false, None).unwrap_err();
    assert_eq!(error.kind, ErrorKind::NotFound);
    let file = backing.open("present", true, None).unwrap();
    backing.write_at(&file, 0, b"abc", None).unwrap();
    assert_eq!(backing.len(&file).unwrap(), 3);
    assert_eq!(backing.read_at(&file, 1, 2).unwrap(), b"bc");
    let error = backing.read_at(&file, 1, 3).unwrap_err();
    assert_eq!(error.kind, ErrorKind::UnexpectedEof);
    backing.remove("present", None).unwrap();
    assert_eq!(backing.len(&file).unwrap_err().kind, ErrorKind::NotFound);
}

#[test]
fn an_injected_fault_changes_nothing() {
    let (mut backing, file) = prepared(1);
    let fault = || Some(BackingError { kind: ErrorKind::Other, message: "injected".into() });
    let error = backing.write_at(&file, 0, &[1u8; 4], fault()).unwrap_err();
    assert_eq!(error.message, "injected");
    assert_eq!(backing.read_at(&file, 0, 4).unwrap(), vec![0u8; 4]);
    assert!(backing.set_len(&file, 1, fault()).is_err());
    assert_eq!(backing.len(&file).unwrap(), UNIT as u64);
    assert!(backing.remove("data", fault()).is_err());
    assert!(backing.rename("data", "other", fault()).is_err());
    assert!(backing.exists_path("data"));
    assert_eq!(backing.pending_write_count(), 0);
}

#[test]
fn the_reported_free_space_is_what_was_set() {
    let (mut backing, file) = prepared(1);
    assert_eq!(backing.free_bytes(), None);
    backing.set_free_bytes(Some(8));
    backing.write_at(&file, UNIT as u64, &[1u8; 9], None).unwrap();
    assert_eq!(backing.free_bytes(), Some(8));
    assert_eq!(backing.len(&file).unwrap(), UNIT as u64 + 9);
    assert_eq!(backing.pending_write_count(), 1);
}

#[test]
fn a_lock_is_held_until_it_is_released() {
    let mut backing = CrashableBacking::new();
    backing.try_lock("lock").unwrap();
    assert_eq!(backing.try_lock("lock").unwrap_err().kind, ErrorKind::WouldBlock);
    backing.unlock("lock");
    backing.try_lock("lock").unwrap();
    backing.crash_all_lost();
    assert!(backing.try_lock("lock").is_err(), "the holder is still alive");
}

#[test]
fn an_unsynced_rename_may_be_lost_but_a_synced_one_is_not() {
    let (mut backing, _) = prepared(1);
    backing.rename("data", "moved", None).unwrap();
    assert!(backing.exists_path("moved") && !backing.exists_path("data"));
    backing.crash_all_lost();
    assert!(backing.exists_path("data") && !backing.exists_path("moved"));
    backing.rename("data", "moved", None).unwrap();
    let moved = opened(&mut backing, "moved");
    backing.sync_data(&moved, None).unwrap();
    backing.sync_dir("", None).unwrap();
    backing.crash_all_lost();
    assert!(backing.exists_path("moved") && !backing.exists_path("data"));
    assert_eq!(backing.list(""), vec!["moved".to_string()]);
}

#[test]
fn torn_writes_keep_whole_granules() {
    let mut torn = false;
    for seed in 0..200u64 {
        let mut rng = StdRng::seed_from_u64(seed);
        let mut backing = CrashableBacking::new().with_tearing(128);
        let file = backing.open("data", true, None).unwrap();
        backing.set_len(&file, UNIT as u64, None).unwrap();
        backing.sync_data(&file, None).unwrap();
        backing.sync_dir("", None).unwrap();
        backing.write_at(&file, 0, &[1u8; UNIT], None).unwrap();
        backing.crash(&mut rng);
        let file = opened(&mut backing, "data");
        let actual = backing.read_at(&file, 0, UNIT).unwrap();
        for granule in actual.chunks(128) {
            assert!(granule.iter().all(|b| *b == granule[0]), "seed {seed}");
        }
        if actual.iter().any(|b| *b == 0) && actual.iter().any(|b| *b == 1) {
            torn = true;
        }
    }
    assert!(torn, "no write was ever torn");
}

#[test]
fn each_operation_meets_its_own_fate() {
    let mut backing = CrashableBacking::new().with_tearing(2);
    backing.create_dir_all("lost");
    backing.create_dir_all("stays");
    let old = backing.open("a", true, None).unwrap();
    backing.write_at(&old, 0, &[9; 4], None).unwrap();
    backing.sync_data(&old, None).unwrap();
    let late = backing.open("d", true, None).unwrap();
    backing.sync_dir("", None).unwrap();
    backing.create_dir_all("stays/new");
    backing.create_dir_all("lost/new");

    backing.write_at(&old, 0, &[1; 4], None).unwrap();
    backing.write_at(&old, 0, &[2; 4], None).unwrap();
    backing.write_at(&old, 4, &[3; 4], None).unwrap();
    backing.set_len(&old, 2, None).unwrap();
    backing.write_at(&late, 0, &[7; 4], None).unwrap();
    backing.write_at(&late, 4, &[8; 4], None).unwrap();
    backing.open("b", true, None).unwrap();
    backing.open("c", true, None).unwrap();
    backing.remove("c", None).unwrap();
    backing.crash_with(
        &vec![true, false, true, true],
        &vec![
            Fate {
                entry: false,
                ops: vec![
                    OpFate::Kept,
                    OpFate::Torn(Tear::Hole(1)),
                    OpFate::Lost,
                    OpFate::Lost,
                ],
            },
            Fate { entry: false, ops: vec![] },
            Fate { entry: true, ops: vec![] },
            Fate { entry: true, ops: vec![OpFate::Kept, OpFate::Torn(Tear::Prefix(1))] },
        ],
    );
    let a = opened(&mut backing, "a");
    assert_eq!(backing.read_at(&a, 0, 4).unwrap(), [2, 2, 1, 1]);
    assert_eq!(backing.len(&a).unwrap(), 4);
    let d = opened(&mut backing, "d");
    assert_eq!(backing.read_at(&d, 0, 6).unwrap(), [7, 7, 7, 7, 8, 8]);
    assert_eq!(backing.len(&d).unwrap(), 6);
    assert_eq!(backing.list(""), ["a", "d", "lost", "stays"]);
    assert_eq!(backing.list("lost"), Vec::<String>::new());
    assert_eq!(backing.list("stays"), ["new"]);
    assert_eq!(backing.pending_write_count(), 0);
}

#[test]
fn the_same_seed_gives_the_same_crash() {
    let crashed = |seed: u64| {
        let mut backing = CrashableBacking::new().with_tearing(64);
        for name in ["a", "b", "c", "d"] {
            let file = backing.open(name, true, None).unwrap();
            for i in 0..6u8 {
                backing.write_at(&file, 100 * i as u64, &[i + 1; 200], None).unwrap();
            }
        }
        backing.crash(&mut StdRng::seed_from_u64(seed));
        let names = backing.list("");
        names
            .into_iter()
            .map(|name| {
                let file = opened(&mut backing, &name);
                let len = backing.len(&file).unwrap() as usize;
                (name, backing.read_at(&file, 0, len).unwrap())
            })
            .collect::<Vec<_>>()
    };
    let mut outcomes = Vec::new();
    for seed in 0..20u64 {
        assert_eq!(crashed(seed), crashed(seed));
        outcomes.push(crashed(seed));
    }
    outcomes.sort();
    outcomes.dedup();
    assert!(outcomes.len() > 1, "every seed gave the same crash");
}

#[test]
fn a_run_keeps_the_store_and_the_model_together() {
    assert_eq!([0, 49].map(kind_of), [OpKind::Write; 2]);
    assert_eq!([50, 64].map(kind_of), [OpKind::WriteFua; 2]);
    assert_eq!([65, 79].map(kind_of), [OpKind::Flush; 2]);
    assert_eq!([80, 99].map(kind_of), [OpKind::Crash; 2]);

    let mut run = Run::start(3, 4);
    assert_eq!(run.read_unit(2), [0; 4]);
    run.write(1, &[5; 4]);
    assert_eq!(run.model.allowed_after_crash(1).len(), 2);
    run.flush();
    run.write_fua(2, &[6; 4]);
    run.write(0, &[7; 4]);
    let mut rng = StdRng::seed_from_u64(1);
    run.crash(&mut rng).unwrap();
    assert_eq!(run.read_unit(1), [5; 4]);
    assert_eq!(run.read_unit(2), [6; 4]);
    assert!(run.read_unit(0) == [7; 4] || run.read_unit(0) == [0; 4]);
    for unit in 0..3 {
        assert_eq!(run.model.read(unit), run.read_unit(unit));
    }
}

#[test]
fn a_sequence_plays_the_operations_that_its_seed_draws() {
    let cfg = SequenceConfig { num_units: 4, unit_size: 3, ops: 60 };
    for seed in 0..20u64 {
        let words = seed.wrapping_mul(0x9E37_79B9_7F4A_7C15).wrapping_add(1);
        let mut rng = StdRng::seed_from_u64(words);
        let mut run = Run::start(cfg.num_units, cfg.unit_size);
        let mut stamp = 0u8;
        for _ in 0..cfg.ops {
            match kind_of(rng.random_range(0..100u32)) {
                OpKind::Write => {
                    let unit = rng.random_range(0..cfg.num_units);
                    stamp += 1;
                    run.write(unit, &[stamp; 3]);
                }
                OpKind::WriteFua => {
                    let unit = rng.random_range(0..cfg.num_units);
                    stamp += 1;
                    run.write_fua(unit, &[stamp; 3]);
                }
                OpKind::Flush => run.flush(),
                OpKind::Crash => run.crash(&mut rng).unwrap(),
            }
            if rng.random_ratio(1, 4) {
                let unit = rng.random_range(0..cfg.num_units);
                assert_eq!(run.read_unit(unit), run.model.read(unit));
            }
        }
        let played = play_sequence(seed, &cfg).unwrap();
        for unit in 0..cfg.num_units {
            assert_eq!(played.read_unit(unit), run.read_unit(unit), "seed {seed}, unit {unit}");
        }
    }
}

#[test]
fn only_the_last_surviving_write_is_ever_torn() {
    let mut torn = [false; 3];
    for seed in 0..400u64 {
        let mut backing = CrashableBacking::new().with_tearing(1);
        let file = backing.open("f", true, None).unwrap();
        backing.set_len(&file, 12, None).unwrap();
        backing.sync_data(&file, None).unwrap();
        backing.sync_dir("", None).unwrap();
        for i in 0..3u8 {
            backing.write_at(&file, 4 * u64::from(i), &[i + 1; 4], None).unwrap();
        }
        backing.crash(&mut StdRng::seed_from_u64(seed));
        let file = opened(&mut backing, "f");
        let left = backing.read_at(&file, 0, 12).unwrap();
        let parts: Vec<usize> =
            left.chunks(4).map(|part| part.iter().filter(|byte| **byte != 0).count()).collect();
        for i in 0..3 {
            if parts[i] % 4 != 0 {
                torn[i] = true;
                assert!(parts[i + 1..].iter().all(|n| *n == 0), "seed {seed}: {left:?}");
            }
        }
    }
    assert_eq!(torn, [true; 3], "each write is the last surviving one for some seed");
}
