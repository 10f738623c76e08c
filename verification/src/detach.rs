//! Read-only observations of an attachment. Absence is distinct from a failed
//! probe: a retry may skip completed work only after the current mounts and
//! device-mapper topology were held against the recorded attachment.

use vstd::prelude::*;

use crate::probe::{nbd_index, unescape};
use crate::state::BoundDeviceRecord;
use crate::sysfs::{
    device_number, find_entry, invalid, is_nbd_partition, number_of_entry, BlockEntry, BlockTree,
    ProbeError,
};
use crate::text::{
    chars_of, has_prefix, join2, join3, list_holds, replace, same, show, split_lines, split_once,
    split_words, string_of, trim,
};

verus! {

broadcast use vstd::seq::group_seq_axioms;

/// What is live of an attachment.
#[derive(Debug, Clone, Copy, PartialEq, Eq, Structural)]
pub struct DetachObservation {
    pub mounted: bool,
    pub vg_active: bool,
    pub nbd_in_use: bool,
}

impl DetachObservation {
    /// Nothing is live.
    pub open spec fn is_clear(self) -> bool {
        !self.mounted && !self.vg_active && !self.nbd_in_use
    }

    /// Whether nothing is live.
    pub fn clear(&self) -> (r: bool)
        ensures
            r == self.is_clear(),
    {
        !self.mounted && !self.vg_active && !self.nbd_in_use
    }
}

// ---------- mapping names ----------

/// A text before what may follow.
pub open spec fn before(head: Seq<char>, rest: Option<Seq<char>>) -> Option<Seq<char>> {
    match rest {
        Some(r) => Some(head + r),
        None => None,
    }
}

/// The volume group that a device-mapper name tells, read from `i` on: a single
/// hyphen ends it, a doubled one stands for a hyphen.
pub open spec fn group_from(s: Seq<char>, i: int) -> Option<Seq<char>>
    decreases s.len() - i,
{
    if i < 0 || i >= s.len() {
        None
    } else if s[i] == '-' {
        if i + 1 < s.len() && s[i + 1] == '-' {
            before(seq!['-'], group_from(s, i + 2))
        } else {
            Some(Seq::empty())
        }
    } else {
        before(seq![s[i]], group_from(s, i + 1))
    }
}

/// The volume group that a device-mapper name tells.
pub open spec fn mapped_group(name: Seq<char>) -> Option<Seq<char>> {
    group_from(name, 0)
}

/// The device-mapper name of a logical volume.
pub open spec fn mapping_name(vg: Seq<char>, lv: Seq<char>) -> Seq<char> {
    crate::text::replaced(vg, '-', "--"@) + "-"@ + crate::text::replaced(lv, '-', "--"@)
}

/// The volume group that a device-mapper name tells.
pub fn mapped_volume_group(name: &str) -> (r: Option<String>)
    ensures
        crate::text::optional(r) == mapped_group(name@),
{
    let cs = chars_of(name);
    let mut group: Vec<char> = Vec::new();
    let mut i: usize = 0;
    assert(before(group@, mapped_group(name@)) == mapped_group(name@)) by {
        if let Some(r) = mapped_group(name@) {
            assert(group@ + r =~= r);
        }
    }
    while i < cs.len()
        invariant
            i <= cs.len(),
            cs@ == name@,
            mapped_group(name@) == before(group@, group_from(name@, i as int)),
        decreases cs.len() - i,
    {
        let c = cs[i];
        let ghost head = group@;
        if c == '-' {
            if i + 1 >= cs.len() || cs[i + 1] != '-' {
                assert(head + Seq::<char>::empty() =~= head);
                return Some(string_of(&group));
            }
            group.push(c);
            proof {
                if let Some(r) = group_from(name@, i + 2) {
                    assert(head + (seq!['-'] + r) =~= group@ + r);
                }
            }
            i += 2;
        } else {
            group.push(c);
            proof {
                if let Some(r) = group_from(name@, i + 1) {
                    assert(head + (seq![c] + r) =~= group@ + r);
                }
            }
            i += 1;
        }
    }
    None
}

/// The device-mapper name of a logical volume.
pub fn logical_volume_mapping(vg: &str, lv: &str) -> (r: String)
    ensures
        r@ == mapping_name(vg@, lv@),
{
    join3(replace(vg, '-', "--").as_str(), "-", replace(lv, '-', "--").as_str())
}

// ---------- what a mapping is built on ----------

/// How many devices a chain of backing devices may hold.
pub const MAX_CHAIN: usize = 64;

/// What a device is built on, if that is known.
pub open spec fn backing(entries: Seq<BlockEntry>, name: Seq<char>) -> Option<Seq<Seq<char>>> {
    match crate::sysfs::entry_named(entries, name) {
        Some(entry) => match entry.slaves {
            Some(slaves) => Some(crate::text::strings(slaves@)),
            None => None,
        },
        None => None,
    }
}

/// Whether a device is built on the NBD device alone. `path` holds the devices
/// that lie above it.
pub open spec fn depends(
    entries: Seq<BlockEntry>,
    name: Seq<char>,
    nbd: Seq<char>,
    path: Seq<Seq<char>>,
) -> Result<bool, crate::sysfs::Complaint>
    decreases 65 - path.len(), 0int,
{
    if name == nbd {
        Ok(true)
    } else {
        match crate::sysfs::partition_of(entries, name, nbd) {
            Err(c) => Err(c),
            Ok(true) => Ok(true),
            Ok(false) => if path.len() >= MAX_CHAIN || path.contains(name) {
                Err(
                    crate::sysfs::Complaint::Invalid(
                        "cyclic or excessive block-device dependency depth"@,
                    ),
                )
            } else {
                match backing(entries, name) {
                    None => Err(crate::sysfs::Complaint::Unreadable),
                    Some(slaves) => depends_from(entries, slaves, 0, nbd, path.push(name)),
                }
            },
        }
    }
}

/// Whether there are backing devices, and those from `i` on are built on the
/// NBD device alone.
pub open spec fn depends_from(
    entries: Seq<BlockEntry>,
    slaves: Seq<Seq<char>>,
    i: int,
    nbd: Seq<char>,
    path: Seq<Seq<char>>,
) -> Result<bool, crate::sysfs::Complaint>
    decreases 65 - path.len(), slaves.len() - i + 1,
    when path.len() <= MAX_CHAIN && 0 <= i <= slaves.len()
{
    if i >= slaves.len() {
        Ok(slaves.len() > 0)
    } else {
        match depends(entries, slaves[i], nbd, path) {
            Err(c) => Err(c),
            Ok(false) => Ok(false),
            Ok(true) => depends_from(entries, slaves, i + 1, nbd, path),
        }
    }
}

/// Whether a device is built on the NBD device alone.
fn depends_only_on(
    entries: &Vec<BlockEntry>,
    name: &str,
    nbd: &str,
    path: &mut Vec<String>,
) -> (r: Result<bool, ProbeError>)
    requires
        old(path)@.len() <= MAX_CHAIN,
    ensures
        crate::sysfs::agrees(
            r,
            depends(entries@, name@, nbd@, crate::text::strings(old(path)@)),
        ),
        r == Ok::<bool, ProbeError>(true) ==> final(path)@ == old(path)@,
    decreases 65 - old(path)@.len(), 0int,
{
    let ghost above = crate::text::strings(path@);
    if same(name, nbd) {
        return Ok(true);
    }
    match is_nbd_partition(entries, name, nbd) {
        Err(e) => return Err(e),
        Ok(true) => return Ok(true),
        Ok(false) => {},
    }
    if path.len() >= MAX_CHAIN || list_holds(path, name) {
        return Err(invalid("cyclic or excessive block-device dependency depth"));
    }
    let slaves = match find_entry(entries, name) {
        Some(entry) => match &entry.slaves {
            Some(slaves) => slaves,
            None => return Err(ProbeError::Unreadable),
        },
        None => return Err(ProbeError::Unreadable),
    };
    let ghost first = path@;
    path.push(name.to_owned());
    let ghost full = path@;
    let ghost texts = crate::text::strings(slaves@);
    assert(crate::text::strings(full) =~= above.push(name@));
    assert(backing(entries@, name@) == Some(texts));
    let mut i: usize = 0;
    while i < slaves.len()
        invariant
            i <= slaves.len(),
            texts == crate::text::strings(slaves@),
            path@ == full,
            full.len() == old(path)@.len() + 1,
            full.len() <= MAX_CHAIN,
            crate::text::strings(full) == above.push(name@),
            depends(entries@, name@, nbd@, above) == depends_from(
                entries@,
                texts,
                i as int,
                nbd@,
                above.push(name@),
            ),
            above == crate::text::strings(old(path)@),
        decreases slaves.len() - i,
    {
        assert(texts[i as int] == slaves@[i as int]@);
        match depends_only_on(entries, slaves[i].as_str(), nbd, path) {
            Err(e) => return Err(e),
            Ok(false) => return Ok(false),
            Ok(true) => {},
        }
        i += 1;
    }
    path.pop();
    assert(path@ =~= first);
    Ok(slaves.len() > 0)
}

// ---------- the scan of the tree ----------

/// What is looked for.
pub struct Sought {
    pub nbd: Seq<char>,
    pub vg: Seq<char>,
    pub lv_mapping: Seq<char>,
}

/// What was found so far.
pub struct Scan {
    pub vg_active: bool,
    pub lv_device: Option<(u32, u32)>,
    pub nbd_devices: Seq<(u32, u32)>,
    pub nbd_in_use: bool,
}

/// Nothing was found yet.
pub open spec fn no_scan() -> Scan {
    Scan { vg_active: false, lv_device: None, nbd_devices: Seq::empty(), nbd_in_use: false }
}

/// An entry is the NBD device or one of its partitions.
pub open spec fn on_device(
    entries: Seq<BlockEntry>,
    name: Seq<char>,
    nbd: Seq<char>,
) -> Result<bool, crate::sysfs::Complaint> {
    if name == nbd {
        Ok(true)
    } else {
        crate::sysfs::partition_of(entries, name, nbd)
    }
}

/// What an entry on the NBD device adds.
pub open spec fn with_device(entry: BlockEntry, scan: Scan) -> Result<
    Scan,
    crate::sysfs::Complaint,
> {
    match crate::sysfs::entry_number(entry) {
        Err(c) => Err(c),
        Ok(number) => match entry.holders {
            None => Err(crate::sysfs::Complaint::Unreadable),
            Some(holders) => Ok(
                Scan {
                    nbd_devices: scan.nbd_devices.push(number),
                    nbd_in_use: scan.nbd_in_use || holders@.len() > 0,
                    ..scan
                },
            ),
        },
    }
}

/// What a mapping adds. A mapping of the recorded group must be an LVM mapping
/// on the NBD device alone.
pub open spec fn with_mapping(
    entries: Seq<BlockEntry>,
    entry: BlockEntry,
    sought: Sought,
    scan: Scan,
) -> Result<Scan, crate::sysfs::Complaint> {
    let foreign = crate::sysfs::Complaint::Invalid(
        "active VG mapping is not backed exclusively by the recorded NBD device"@,
    );
    match entry.dm_name {
        None => Err(crate::sysfs::Complaint::Unreadable),
        Some(dm_name) => if mapped_group(crate::text::trimmed(dm_name@)) != Some(sought.vg) {
            Ok(scan)
        } else {
            match entry.dm_uuid {
                None => Err(crate::sysfs::Complaint::Unreadable),
                Some(uuid) => if !crate::text::starts_with(uuid@, "LVM-"@) {
                    Err(foreign)
                } else {
                    match depends(entries, entry.name@, sought.nbd, Seq::empty()) {
                        Err(c) => Err(c),
                        Ok(false) => Err(foreign),
                        Ok(true) => if crate::text::trimmed(dm_name@) == sought.lv_mapping {
                            match crate::sysfs::entry_number(entry) {
                                Err(c) => Err(c),
                                Ok(number) => Ok(
                                    Scan { vg_active: true, lv_device: Some(number), ..scan },
                                ),
                            }
                        } else {
                            Ok(Scan { vg_active: true, ..scan })
                        },
                    }
                },
            }
        },
    }
}

/// What an entry adds.
pub open spec fn with_entry(
    entries: Seq<BlockEntry>,
    entry: BlockEntry,
    sought: Sought,
    scan: Scan,
) -> Result<Scan, crate::sysfs::Complaint> {
    match on_device(entries, entry.name@, sought.nbd) {
        Err(c) => Err(c),
        Ok(own) => match if own {
            with_device(entry, scan)
        } else {
            Ok(scan)
        } {
            Err(c) => Err(c),
            Ok(next) => if crate::text::starts_with(entry.name@, "dm-"@) {
                with_mapping(entries, entry, sought, next)
            } else {
                Ok(next)
            },
        },
    }
}

/// What the first `n` entries say.
pub open spec fn scan_upto(entries: Seq<BlockEntry>, sought: Sought, n: nat) -> Result<
    Scan,
    crate::sysfs::Complaint,
>
    decreases n,
{
    if n == 0 {
        Ok(no_scan())
    } else {
        match scan_upto(entries, sought, (n - 1) as nat) {
            Err(c) => Err(c),
            Ok(scan) => with_entry(entries, entries[n - 1], sought, scan),
        }
    }
}

proof fn lemma_scan_stops(entries: Seq<BlockEntry>, sought: Sought, n: nat)
    requires
        n <= entries.len(),
        scan_upto(entries, sought, n) is Err,
    ensures
        scan_upto(entries, sought, entries.len()) == scan_upto(entries, sought, n),
    decreases entries.len() - n,
{
    if n < entries.len() {
        lemma_scan_stops(entries, sought, n + 1);
    }
}

/// What a scan found, as values.
struct Found {
    vg_active: bool,
    lv_device: Option<(u32, u32)>,
    nbd_devices: Vec<(u32, u32)>,
    nbd_in_use: bool,
}

impl Found {
    spec fn model(&self) -> Scan {
        Scan {
            vg_active: self.vg_active,
            lv_device: self.lv_device,
            nbd_devices: self.nbd_devices@,
            nbd_in_use: self.nbd_in_use,
        }
    }
}

fn scan_entry(
    entries: &Vec<BlockEntry>,
    entry: &BlockEntry,
    nbd: &str,
    vg: &str,
    lv_mapping: &str,
    found: &mut Found,
) -> (r: Result<(), ProbeError>)
    ensures
        match r {
            Ok(()) => with_entry(
                entries@,
                *entry,
                Sought { nbd: nbd@, vg: vg@, lv_mapping: lv_mapping@ },
                old(found).model(),
            ) == Ok::<Scan, crate::sysfs::Complaint>(final(found).model()),
            Err(e) => with_entry(
                entries@,
                *entry,
                Sought { nbd: nbd@, vg: vg@, lv_mapping: lv_mapping@ },
                old(found).model(),
            ) == Err::<Scan, crate::sysfs::Complaint>(e@),
        },
{
    let name = entry.name.as_str();
    let own = if same(name, nbd) {
        true
    } else {
        match is_nbd_partition(entries, name, nbd) {
            Ok(own) => own,
            Err(e) => return Err(e),
        }
    };
    if own {
        let number = match number_of_entry(entry) {
            Ok(number) => number,
            Err(e) => return Err(e),
        };
        match &entry.holders {
            None => return Err(ProbeError::Unreadable),
            Some(holders) => {
                found.nbd_devices.push(number);
                if holders.len() > 0 {
                    found.nbd_in_use = true;
                }
            },
        }
    }
    if !has_prefix(name, "dm-") {
        return Ok(());
    }
    let dm_name = match &entry.dm_name {
        Some(text) => trim(text.as_str()),
        None => return Err(ProbeError::Unreadable),
    };
    match mapped_volume_group(dm_name) {
        Some(group) => {
            if !same(group.as_str(), vg) {
                return Ok(());
            }
        },
        None => return Ok(()),
    }
    let uuid = match &entry.dm_uuid {
        Some(uuid) => uuid,
        None => return Err(ProbeError::Unreadable),
    };
    if !has_prefix(uuid.as_str(), "LVM-") {
        return Err(
            invalid("active VG mapping is not backed exclusively by the recorded NBD device"),
        );
    }
    let mut path: Vec<String> = Vec::new();
    assert(crate::text::strings(path@) =~= Seq::<Seq<char>>::empty());
    match depends_only_on(entries, name, nbd, &mut path) {
        Err(e) => return Err(e),
        Ok(false) => return Err(
            invalid("active VG mapping is not backed exclusively by the recorded NBD device"),
        ),
        Ok(true) => {},
    }
    if same(dm_name, lv_mapping) {
        match number_of_entry(entry) {
            Ok(number) => {
                found.lv_device = Some(number);
            },
            Err(e) => return Err(e),
        }
    }
    found.vg_active = true;
    Ok(())
}

fn scan_tree(entries: &Vec<BlockEntry>, nbd: &str, vg: &str, lv_mapping: &str) -> (r: Result<
    Found,
    ProbeError,
>)
    ensures
        match r {
            Ok(found) => scan_upto(
                entries@,
                Sought { nbd: nbd@, vg: vg@, lv_mapping: lv_mapping@ },
                entries@.len(),
            ) == Ok::<Scan, crate::sysfs::Complaint>(found.model()),
            Err(e) => scan_upto(
                entries@,
                Sought { nbd: nbd@, vg: vg@, lv_mapping: lv_mapping@ },
                entries@.len(),
            ) == Err::<Scan, crate::sysfs::Complaint>(e@),
        },
{
    let ghost sought = Sought { nbd: nbd@, vg: vg@, lv_mapping: lv_mapping@ };
    let mut found = Found {
        vg_active: false,
        lv_device: None,
        nbd_devices: Vec::new(),
        nbd_in_use: false,
    };
    let mut i: usize = 0;
    assert(found.model().nbd_devices =~= no_scan().nbd_devices);
    while i < entries.len()
        invariant
            i <= entries.len(),
            sought == (Sought { nbd: nbd@, vg: vg@, lv_mapping: lv_mapping@ }),
            scan_upto(entries@, sought, i as nat) == Ok::<Scan, crate::sysfs::Complaint>(
                found.model(),
            ),
        decreases entries.len() - i,
    {
        match scan_entry(entries, &entries[i], nbd, vg, lv_mapping, &mut found) {
            Ok(()) => {},
            Err(e) => {
                proof {
                    lemma_scan_stops(entries@, sought, (i + 1) as nat);
                }
                return Err(e);
            },
        }
        i += 1;
    }
    Ok(found)
}

// ---------- the scan of the mounts ----------

/// What the mounts say so far.
pub struct Mounts {
    pub nbd_in_use: bool,
    pub at_target: Option<(u32, u32)>,
}

/// What a line of the mount table adds. Every entry at the target must be the
/// whole filesystem on the recorded logical volume, and the only one there.
pub open spec fn with_line(line: Seq<char>, mountpoint: Seq<char>, scan: Scan, mounts: Mounts) -> Result<
    Mounts,
    crate::sysfs::Complaint,
> {
    let incomplete = crate::sysfs::Complaint::Invalid("incomplete mountinfo observation"@);
    if crate::text::trimmed(line).len() == 0 {
        Ok(mounts)
    } else {
        match crate::text::cut(line, " - "@) {
            None => Err(incomplete),
            Some((left, right)) => {
                let fields = crate::text::words(left);
                let filesystem = crate::text::words(right);
                if fields.len() < 6 || filesystem.len() < 3 {
                    Err(incomplete)
                } else {
                    match crate::sysfs::number_of(fields[2]) {
                        Err(c) => Err(c),
                        Ok(device) => {
                            let nbd_in_use = mounts.nbd_in_use || scan.nbd_devices.contains(device);
                            if crate::probe::unescaped(fields[4]) != mountpoint {
                                Ok(Mounts { nbd_in_use, ..mounts })
                            } else if crate::probe::unescaped(fields[3]) != "/"@ || filesystem[0]
                                != "xfs"@ || scan.lv_device != Some(device) || mounts.at_target is Some {
                                Err(
                                    crate::sysfs::Complaint::Invalid(
                                        "mountpoint no longer identifies the recorded XFS logical volume"@,
                                    ),
                                )
                            } else {
                                Ok(Mounts { nbd_in_use, at_target: Some(device) })
                            }
                        },
                    }
                }
            },
        }
    }
}

/// What the first `n` lines of the mount table say.
pub open spec fn mounts_upto(
    lines: Seq<Seq<char>>,
    mountpoint: Seq<char>,
    scan: Scan,
    n: nat,
) -> Result<Mounts, crate::sysfs::Complaint>
    decreases n,
{
    if n == 0 {
        Ok(Mounts { nbd_in_use: scan.nbd_in_use, at_target: None })
    } else {
        match mounts_upto(lines, mountpoint, scan, (n - 1) as nat) {
            Err(c) => Err(c),
            Ok(mounts) => with_line(lines[n - 1], mountpoint, scan, mounts),
        }
    }
}

proof fn lemma_mounts_stop(lines: Seq<Seq<char>>, mountpoint: Seq<char>, scan: Scan, n: nat)
    requires
        n <= lines.len(),
        mounts_upto(lines, mountpoint, scan, n) is Err,
    ensures
        mounts_upto(lines, mountpoint, scan, lines.len()) == mounts_upto(
            lines,
            mountpoint,
            scan,
            n,
        ),
    decreases lines.len() - n,
{
    if n < lines.len() {
        lemma_mounts_stop(lines, mountpoint, scan, n + 1);
    }
}

fn holds_number(list: &Vec<(u32, u32)>, number: (u32, u32)) -> (r: bool)
    ensures
        r == list@.contains(number),
{
    let mut i: usize = 0;
    while i < list.len()
        invariant
            i <= list.len(),
            forall|k: int| 0 <= k < i ==> list@[k] != number,
        decreases list.len() - i,
    {
        if list[i].0 == number.0 && list[i].1 == number.1 {
            assert(list@[i as int] == number);
            return true;
        }
        i += 1;
    }
    false
}

/// The two device numbers are known and equal.
fn is_number(a: Option<(u32, u32)>, b: (u32, u32)) -> (r: bool)
    ensures
        r == (a == Some(b)),
{
    match a {
        Some(x) => x.0 == b.0 && x.1 == b.1,
        None => false,
    }
}

fn scan_line(
    line: &str,
    mountpoint: &str,
    found: &Found,
    nbd_in_use: bool,
    at_target: Option<(u32, u32)>,
) -> (r: Result<(bool, Option<(u32, u32)>), ProbeError>)
    ensures
        match r {
            Ok((used, target)) => with_line(
                line@,
                mountpoint@,
                found.model(),
                Mounts { nbd_in_use, at_target },
            ) == Ok::<Mounts, crate::sysfs::Complaint>(
                Mounts { nbd_in_use: used, at_target: target },
            ),
            Err(e) => with_line(
                line@,
                mountpoint@,
                found.model(),
                Mounts { nbd_in_use, at_target },
            ) == Err::<Mounts, crate::sysfs::Complaint>(e@),
        },
{
    if trim(line).is_empty() {
        return Ok((nbd_in_use, at_target));
    }
    let (left, right) = match split_once(line, " - ") {
        Some(p) => p,
        None => return Err(invalid("incomplete mountinfo observation")),
    };
    assert(crate::text::cut(line@, " - "@) == Some((left@, right@)));
    let fields = split_words(left);
    let filesystem = split_words(right);
    assert(crate::text::words(left@).len() == fields@.len());
    assert(crate::text::words(right@).len() == filesystem@.len());
    if fields.len() < 6 || filesystem.len() < 3 {
        return Err(invalid("incomplete mountinfo observation"));
    }
    assert(crate::text::words(left@)[2] == fields@[2]@);
    assert(crate::text::words(left@)[3] == fields@[3]@);
    assert(crate::text::words(left@)[4] == fields@[4]@);
    assert(crate::text::words(right@)[0] == filesystem@[0]@);
    let device = match device_number(fields[2]) {
        Ok(device) => device,
        Err(e) => return Err(e),
    };
    let used = nbd_in_use || holds_number(&found.nbd_devices, device);
    if !same(unescape(fields[4]).as_str(), mountpoint) {
        return Ok((used, at_target));
    }
    if !same(unescape(fields[3]).as_str(), "/") || !same(filesystem[0], "xfs") || !is_number(
        found.lv_device,
        device,
    ) || at_target.is_some() {
        return Err(invalid("mountpoint no longer identifies the recorded XFS logical volume"));
    }
    Ok((used, Some(device)))
}

fn scan_mounts(mountinfo: &str, mountpoint: &str, found: &Found) -> (r: Result<
    (bool, Option<(u32, u32)>),
    ProbeError,
>)
    ensures
        ({
            let lines = crate::text::lines(mountinfo@);
            match r {
                Ok((used, target)) => mounts_upto(
                    lines,
                    mountpoint@,
                    found.model(),
                    lines.len(),
                ) == Ok::<Mounts, crate::sysfs::Complaint>(
                    Mounts { nbd_in_use: used, at_target: target },
                ),
                Err(e) => mounts_upto(lines, mountpoint@, found.model(), lines.len()) == Err::<
                    Mounts,
                    crate::sysfs::Complaint,
                >(e@),
            }
        }),
{
    let lines = split_lines(mountinfo);
    let ghost texts = crate::text::lines(mountinfo@);
    let ghost scan = found.model();
    let mut used = found.nbd_in_use;
    let mut target: Option<(u32, u32)> = None;
    let mut i: usize = 0;
    while i < lines.len()
        invariant
            i <= lines.len(),
            texts == crate::text::texts(lines@),
            texts == crate::text::lines(mountinfo@),
            scan == found.model(),
            mounts_upto(texts, mountpoint@, scan, i as nat) == Ok::<
                Mounts,
                crate::sysfs::Complaint,
            >(Mounts { nbd_in_use: used, at_target: target }),
        decreases lines.len() - i,
    {
        assert(texts[i as int] == lines@[i as int]@);
        match scan_line(lines[i], mountpoint, found, used, target) {
            Ok((u, t)) => {
                used = u;
                target = t;
            },
            Err(e) => {
                proof {
                    lemma_mounts_stop(texts, mountpoint@, scan, (i + 1) as nat);
                }
                return Err(e);
            },
        }
        i += 1;
    }
    Ok((used, target))
}

// ---------- the observation ----------

/// What is live of the recorded attachment.
pub open spec fn observation(
    record: BoundDeviceRecord,
    mountinfo: Seq<char>,
    entries: Seq<BlockEntry>,
    sentinel: Option<Seq<char>>,
    check_sentinel: bool,
    allow_missing: bool,
) -> Result<DetachObservation, crate::sysfs::Complaint> {
    match crate::probe::device_index(record.device@) {
        None => Err(crate::sysfs::Complaint::Invalid("invalid recorded NBD device"@)),
        Some(index) => {
            let sought = Sought {
                nbd: "nbd"@ + crate::text::decimal(index),
                vg: record.attachment.vg_name@,
                lv_mapping: mapping_name(record.attachment.vg_name@, record.attachment.lv_name@),
            };
            match scan_upto(entries, sought, entries.len()) {
                Err(c) => Err(c),
                Ok(scan) => {
                    let lines = crate::text::lines(mountinfo);
                    match mounts_upto(lines, record.attachment.mountpoint@, scan, lines.len()) {
                        Err(c) => Err(c),
                        Ok(mounts) => if mounts.at_target is Some && check_sentinel && !(
                        sentinel_fits(sentinel, record.attachment.volume_uuid@, allow_missing)) {
                            Err(
                                crate::sysfs::Complaint::Invalid(
                                    "mounted volume sentinel no longer matches the attachment"@,
                                ),
                            )
                        } else {
                            Ok(
                                DetachObservation {
                                    mounted: mounts.at_target is Some,
                                    vg_active: scan.vg_active,
                                    nbd_in_use: mounts.nbd_in_use,
                                },
                            )
                        },
                    }
                },
            }
        },
    }
}

/// The sentinel is that of the volume, or missing where that is allowed.
pub open spec fn sentinel_fits(
    sentinel: Option<Seq<char>>,
    volume_uuid: Seq<char>,
    allow_missing: bool,
) -> bool {
    match sentinel {
        Some(value) => value == volume_uuid,
        None => allow_missing,
    }
}

/// What is live of the recorded attachment. The sentinel is looked at only
/// where something is mounted at the target.
pub fn observe_kernel(
    record: &BoundDeviceRecord,
    mountinfo: &str,
    tree: &BlockTree,
    sentinel: &Option<String>,
    check_sentinel: bool,
    allow_missing: bool,
) -> (r: Result<DetachObservation, ProbeError>)
    ensures
        crate::sysfs::agrees(
            r,
            observation(
                *record,
                mountinfo@,
                tree.entries@,
                crate::text::optional(*sentinel),
                check_sentinel,
                allow_missing,
            ),
        ),
{
    let index: u32 = match nbd_index(record.device.as_str()) {
        Some(index) => index,
        None => return Err(invalid("invalid recorded NBD device")),
    };
    let nbd = join2("nbd", show(index as u64).as_str());
    let vg = record.attachment.vg_name.as_str();
    let mountpoint = record.attachment.mountpoint.as_str();
    let lv_mapping = logical_volume_mapping(vg, record.attachment.lv_name.as_str());
    let found = match scan_tree(&tree.entries, nbd.as_str(), vg, lv_mapping.as_str()) {
        Ok(found) => found,
        Err(e) => return Err(e),
    };
    let (used, target) = match scan_mounts(mountinfo, mountpoint, &found) {
        Ok(p) => p,
        Err(e) => return Err(e),
    };
    let mounted = target.is_some();
    if mounted && check_sentinel {
        let fits = match sentinel {
            Some(value) => same(value.as_str(), record.attachment.volume_uuid.as_str()),
            None => allow_missing,
        };
        if !fits {
            return Err(invalid("mounted volume sentinel no longer matches the attachment"));
        }
    }
    Ok(DetachObservation { mounted, vg_active: found.vg_active, nbd_in_use: used })
}

/// What is live of the recorded attachment, sentinel and all.
pub fn observe(
    record: &BoundDeviceRecord,
    mountinfo: &str,
    tree: &BlockTree,
    sentinel: &Option<String>,
) -> (r: Result<DetachObservation, ProbeError>)
    ensures
        crate::sysfs::agrees(
            r,
            observation(
                *record,
                mountinfo@,
                tree.entries@,
                crate::text::optional(*sentinel),
                true,
                false,
            ),
        ),
{
    observe_kernel(record, mountinfo, tree, sentinel, true, false)
}

/// What is live of an attachment that is being rolled back: where the attach
/// had not yet written the sentinel, a missing one is no contradiction.
pub fn observe_rollback(
    record: &BoundDeviceRecord,
    mountinfo: &str,
    tree: &BlockTree,
    sentinel: &Option<String>,
    allow_missing: bool,
) -> (r: Result<DetachObservation, ProbeError>)
    ensures
        crate::sysfs::agrees(
            r,
            observation(
                *record,
                mountinfo@,
                tree.entries@,
                crate::text::optional(*sentinel),
                true,
                allow_missing,
            ),
        ),
{
    observe_kernel(record, mountinfo, tree, sentinel, true, allow_missing)
}

// ---------- laws ----------

proof fn lemma_group_of_doubled(vg: Seq<char>, rest: Seq<char>)
    ensures
        ({
            let doubled = crate::text::replaced(vg, '-', "--"@);
            group_from(doubled + rest, 0) == before(
                vg,
                group_from(doubled + rest, doubled.len() as int),
            )
        }),
    decreases vg.len(),
{
    reveal_strlit("--");
    let doubled = crate::text::replaced(vg, '-', "--"@);
    let s = doubled + rest;
    if vg.len() == 0 {
        if let Some(r) = group_from(s, 0) {
            assert(vg + r =~= r);
        }
    } else {
        let shorter = vg.drop_last();
        let head = crate::text::replaced(shorter, '-', "--"@);
        let k = head.len() as int;
        let tail = s.skip(k);
        assert(s =~= head + tail);
        lemma_group_of_doubled(shorter, tail);
        if vg.last() == '-' {
            assert(s[k] == '-' && s[k + 1] == '-');
            assert(doubled.len() == k + 2);
            if let Some(r) = group_from(s, k + 2) {
                assert(shorter + (seq!['-'] + r) =~= vg + r);
            }
        } else {
            assert(s[k] == vg.last());
            assert(doubled.len() == k + 1);
            if let Some(r) = group_from(s, k + 1) {
                assert(shorter + (seq![vg.last()] + r) =~= vg + r);
            }
        }
    }
}

/// The device-mapper name of a logical volume tells its volume group back,
/// whatever hyphens the group's own name holds. A logical volume's name never
/// begins with a hyphen.
pub proof fn mapping_names_tell_their_group(vg: Seq<char>, lv: Seq<char>)
    requires
        lv.len() > 0,
        lv[0] != '-',
    ensures
        mapped_group(mapping_name(vg, lv)) == Some(vg),
{
    reveal_strlit("-");
    reveal_strlit("--");
    let doubled = crate::text::replaced(vg, '-', "--"@);
    let tail = crate::text::replaced(lv, '-', "--"@);
    lemma_replaced_starts(lv);
    let rest = "-"@ + tail;
    let s = doubled + rest;
    assert(mapping_name(vg, lv) =~= s);
    lemma_group_of_doubled(vg, rest);
    let k = doubled.len() as int;
    assert(s[k] == '-');
    assert(s[k + 1] == tail[0]);
    assert(group_from(s, k) == Some(Seq::<char>::empty()));
    assert(vg + Seq::<char>::empty() =~= vg);
}

proof fn lemma_replaced_starts(s: Seq<char>)
    requires
        s.len() > 0,
    ensures
        crate::text::replaced(s, '-', "--"@).len() > 0,
        crate::text::replaced(s, '-', "--"@)[0] == s[0],
    decreases s.len(),
{
    reveal_strlit("--");
    if s.len() == 1 {
        assert(crate::text::replaced(s.drop_last(), '-', "--"@) =~= Seq::<char>::empty());
    } else {
        lemma_replaced_starts(s.drop_last());
    }
}

/// A way down from one device to another, each built on the next, none but the
/// last of them on the NBD device itself.
pub open spec fn way_down(entries: Seq<BlockEntry>, nbd: Seq<char>, way: Seq<Seq<char>>) -> bool
    decreases way.len(),
{
    if way.len() <= 1 {
        way.len() == 1
    } else {
        &&& on_device(entries, way[0], nbd) == Ok::<bool, crate::sysfs::Complaint>(false)
        &&& match backing(entries, way[0]) {
            Some(slaves) => slaves.contains(way[1]),
            None => false,
        }
        &&& way_down(entries, nbd, way.drop_first())
    }
}

/// A device that is built on the NBD device alone has no other ground: every
/// way down from it ends on the NBD device or a partition of it, or at a device
/// that is itself built on something.
pub proof fn dependent_devices_have_no_other_ground(
    entries: Seq<BlockEntry>,
    nbd: Seq<char>,
    path: Seq<Seq<char>>,
    way: Seq<Seq<char>>,
)
    requires
        way_down(entries, nbd, way),
        depends(entries, way[0], nbd, path) == Ok::<bool, crate::sysfs::Complaint>(true),
    ensures
        on_device(entries, way.last(), nbd) == Ok::<bool, crate::sysfs::Complaint>(true) || (
        backing(entries, way.last()) matches Some(slaves) && slaves.len() > 0),
    decreases way.len(),
{
    let name = way[0];
    if way.len() > 1 {
        let slaves = backing(entries, name)->Some_0;
        let k = slaves.index_of(way[1]);
        lemma_each_depends(entries, slaves, 0, nbd, path.push(name), k);
        let rest = way.drop_first();
        assert(rest[0] == way[1]);
        assert(rest.last() == way.last());
        dependent_devices_have_no_other_ground(entries, nbd, path.push(name), rest);
    } else {
        assert(way.last() == name);
        if on_device(entries, name, nbd) != Ok::<bool, crate::sysfs::Complaint>(true) {
            let slaves = backing(entries, name)->Some_0;
            lemma_some_backing(entries, slaves, 0, nbd, path.push(name));
        }
    }
}

proof fn lemma_each_depends(
    entries: Seq<BlockEntry>,
    slaves: Seq<Seq<char>>,
    i: int,
    nbd: Seq<char>,
    path: Seq<Seq<char>>,
    k: int,
)
    requires
        0 <= i <= k < slaves.len(),
        path.len() <= MAX_CHAIN,
        depends_from(entries, slaves, i, nbd, path) == Ok::<bool, crate::sysfs::Complaint>(true),
    ensures
        depends(entries, slaves[k], nbd, path) == Ok::<bool, crate::sysfs::Complaint>(true),
    decreases slaves.len() - i,
{
    if i < k {
        lemma_each_depends(entries, slaves, i + 1, nbd, path, k);
    }
}

proof fn lemma_some_backing(
    entries: Seq<BlockEntry>,
    slaves: Seq<Seq<char>>,
    i: int,
    nbd: Seq<char>,
    path: Seq<Seq<char>>,
)
    requires
        0 <= i <= slaves.len(),
        path.len() <= MAX_CHAIN,
        depends_from(entries, slaves, i, nbd, path) == Ok::<bool, crate::sysfs::Complaint>(true),
    ensures
        slaves.len() > 0,
    decreases slaves.len() - i,
{
    if i < slaves.len() {
        lemma_some_backing(entries, slaves, i + 1, nbd, path);
    }
}

proof fn lemma_target_seen(
    lines: Seq<Seq<char>>,
    mountpoint: Seq<char>,
    scan: Scan,
    n: nat,
    k: int,
)
    requires
        0 <= k < n <= lines.len(),
        mounts_upto(lines, mountpoint, scan, n) is Ok,
        mounts_upto(lines, mountpoint, scan, (k + 1) as nat) matches Ok(m) && m.at_target is Some,
    ensures
        mounts_upto(lines, mountpoint, scan, n)->Ok_0.at_target is Some,
    decreases n,
{
    if n > k + 1 {
        lemma_target_seen(lines, mountpoint, scan, (n - 1) as nat, k);
    }
}

/// A line of the mount table that names the target.
pub open spec fn names_target(line: Seq<char>, mountpoint: Seq<char>) -> bool {
    match crate::text::cut(line, " - "@) {
        Some((left, _)) => crate::text::words(left).len() >= 5 && crate::probe::unescaped(
            crate::text::words(left)[4],
        ) == mountpoint,
        None => false,
    }
}

/// An attachment is never seen as unmounted while the mount table names its
/// target: such a table is either refused or shows the attachment mounted.
pub proof fn a_mount_at_the_target_is_never_overlooked(
    record: BoundDeviceRecord,
    mountinfo: Seq<char>,
    entries: Seq<BlockEntry>,
    sentinel: Option<Seq<char>>,
    check_sentinel: bool,
    allow_missing: bool,
    k: int,
)
    requires
        0 <= k < crate::text::lines(mountinfo).len(),
        crate::text::trimmed(crate::text::lines(mountinfo)[k]).len() > 0,
        names_target(crate::text::lines(mountinfo)[k], record.attachment.mountpoint@),
        observation(record, mountinfo, entries, sentinel, check_sentinel, allow_missing) is Ok,
    ensures
        observation(
            record,
            mountinfo,
            entries,
            sentinel,
            check_sentinel,
            allow_missing,
        )->Ok_0.mounted,
{
    let index = crate::probe::device_index(record.device@)->Some_0;
    let sought = Sought {
        nbd: "nbd"@ + crate::text::decimal(index),
        vg: record.attachment.vg_name@,
        lv_mapping: mapping_name(record.attachment.vg_name@, record.attachment.lv_name@),
    };
    let scan = scan_upto(entries, sought, entries.len())->Ok_0;
    let lines = crate::text::lines(mountinfo);
    let mountpoint = record.attachment.mountpoint@;
    if mounts_upto(lines, mountpoint, scan, (k + 1) as nat) is Err {
        lemma_mounts_stop(lines, mountpoint, scan, (k + 1) as nat);
    }
    lemma_target_seen(lines, mountpoint, scan, lines.len(), k);
}

/// A mount is accepted only with the sentinel of the recorded volume, or
/// without one where the attach had not yet written it.
pub proof fn mounted_attachments_carry_their_sentinel(
    record: BoundDeviceRecord,
    mountinfo: Seq<char>,
    entries: Seq<BlockEntry>,
    sentinel: Option<Seq<char>>,
    allow_missing: bool,
)
    requires
        observation(record, mountinfo, entries, sentinel, true, allow_missing) matches Ok(o)
            && o.mounted,
    ensures
        sentinel == Some(record.attachment.volume_uuid@) || (sentinel is None && allow_missing),
{
}

// ---------- what is live is seen ----------

/// A line of the mount table is judged by its fields, however many of them are
/// optional: elsewhere it only tells whether the NBD device is in use, and at
/// the target it must be the whole XFS of the recorded logical volume, once.
pub proof fn mount_lines_are_judged_by_their_fields(
    front: Seq<Seq<char>>,
    back: Seq<Seq<char>>,
    mountpoint: Seq<char>,
    scan: Scan,
    mounts: Mounts,
    device: (u32, u32),
)
    requires
        crate::probe::mount_fields(front, back),
        front.len() >= 6,
        back.len() >= 3,
        front[2] == crate::text::decimal(device.0 as nat) + ":"@ + crate::text::decimal(
            device.1 as nat,
        ),
    ensures
        ({
            let said = with_line(
                crate::probe::mount_line(front, back),
                mountpoint,
                scan,
                mounts,
            );
            let used = mounts.nbd_in_use || scan.nbd_devices.contains(device);
            if crate::probe::unescaped(front[4]) != mountpoint {
                said == Ok::<Mounts, crate::sysfs::Complaint>(
                    Mounts { nbd_in_use: used, at_target: mounts.at_target },
                )
            } else if crate::probe::unescaped(front[3]) == "/"@ && back[0] == "xfs"@
                && scan.lv_device == Some(device) && mounts.at_target is None {
                said == Ok::<Mounts, crate::sysfs::Complaint>(
                    Mounts { nbd_in_use: used, at_target: Some(device) },
                )
            } else {
                said is Err
            }
        }),
{
    crate::probe::mount_lines_come_apart(front, back);
    crate::sysfs::device_numbers_read_back(device.0, device.1);
}

/// A mapping of the group.
pub open spec fn group_mapping(entry: BlockEntry, vg: Seq<char>) -> bool {
    &&& crate::text::starts_with(entry.name@, "dm-"@)
    &&& entry.dm_name matches Some(name) && mapped_group(crate::text::trimmed(name@)) == Some(vg)
}

/// The NBD device or a partition of it with something on top.
pub open spec fn held_device(entries: Seq<BlockEntry>, entry: BlockEntry, nbd: Seq<char>) -> bool {
    &&& on_device(entries, entry.name@, nbd) == Ok::<bool, crate::sysfs::Complaint>(true)
    &&& entry.holders matches Some(holders) && holders@.len() > 0
}

proof fn lemma_scan_sees(entries: Seq<BlockEntry>, sought: Sought, n: nat)
    requires
        n <= entries.len(),
        scan_upto(entries, sought, n) is Ok,
    ensures
        ({
            let scan = scan_upto(entries, sought, n)->Ok_0;
            &&& scan.vg_active <==> exists|k: int|
                0 <= k < n && group_mapping(#[trigger] entries[k], sought.vg)
            &&& scan.nbd_in_use <==> exists|k: int|
                0 <= k < n && held_device(entries, #[trigger] entries[k], sought.nbd)
        }),
    decreases n,
{
    if n > 0 {
        let m = (n - 1) as nat;
        lemma_scan_sees(entries, sought, m);
        let before = scan_upto(entries, sought, m)->Ok_0;
        let scan = scan_upto(entries, sought, n)->Ok_0;
        let entry = entries[m as int];
        assert(scan.vg_active == (before.vg_active || group_mapping(entry, sought.vg)));
        assert(scan.nbd_in_use == (before.nbd_in_use || held_device(entries, entry, sought.nbd)));
        if before.vg_active {
            let k = choose|k: int| 0 <= k < m && group_mapping(#[trigger] entries[k], sought.vg);
            assert(group_mapping(entries[k], sought.vg));
        }
        if before.nbd_in_use {
            let k = choose|k: int|
                0 <= k < m && held_device(entries, #[trigger] entries[k], sought.nbd);
            assert(held_device(entries, entries[k], sought.nbd));
        }
    }
}

/// An observation tells the group active exactly when some mapping of the group
/// is there, and the device in use whenever something lies on it.
pub proof fn what_is_live_is_seen(
    record: BoundDeviceRecord,
    mountinfo: Seq<char>,
    entries: Seq<BlockEntry>,
    sentinel: Option<Seq<char>>,
    check_sentinel: bool,
    allow_missing: bool,
    index: u32,
)
    requires
        record.device@ == "/dev/nbd"@ + crate::text::decimal(index as nat),
        observation(record, mountinfo, entries, sentinel, check_sentinel, allow_missing) is Ok,
    ensures
        ({
            let o = observation(
                record,
                mountinfo,
                entries,
                sentinel,
                check_sentinel,
                allow_missing,
            )->Ok_0;
            let nbd = "nbd"@ + crate::text::decimal(index as nat);
            &&& o.vg_active <==> exists|k: int|
                0 <= k < entries.len() && group_mapping(
                    #[trigger] entries[k],
                    record.attachment.vg_name@,
                )
            &&& (exists|k: int|
                0 <= k < entries.len() && held_device(entries, #[trigger] entries[k], nbd))
                ==> o.nbd_in_use
            &&& crate::text::lines(mountinfo).len() == 0 ==> !o.mounted && (o.nbd_in_use
                <==> exists|k: int|
                0 <= k < entries.len() && held_device(entries, #[trigger] entries[k], nbd))
        }),
{
    crate::probe::nbd_names_tell_their_number(index, 0);
    let sought = Sought {
        nbd: "nbd"@ + crate::text::decimal(index as nat),
        vg: record.attachment.vg_name@,
        lv_mapping: mapping_name(record.attachment.vg_name@, record.attachment.lv_name@),
    };
    lemma_scan_sees(entries, sought, entries.len());
    let scan = scan_upto(entries, sought, entries.len())->Ok_0;
    let lines = crate::text::lines(mountinfo);
    lemma_use_stays(lines, record.attachment.mountpoint@, scan, lines.len());
}

proof fn lemma_use_stays(lines: Seq<Seq<char>>, mountpoint: Seq<char>, scan: Scan, n: nat)
    requires
        n <= lines.len(),
        mounts_upto(lines, mountpoint, scan, n) is Ok,
    ensures
        scan.nbd_in_use ==> mounts_upto(lines, mountpoint, scan, n)->Ok_0.nbd_in_use,
    decreases n,
{
    if n > 0 {
        lemma_use_stays(lines, mountpoint, scan, (n - 1) as nat);
    }
}

/// The mapping of the recorded logical volume, on the NBD device alone, is
/// taken for what it is: the group is active, and this is its device.
pub proof fn the_recorded_mapping_is_recognised(
    entries: Seq<BlockEntry>,
    entry: BlockEntry,
    nbd: Seq<char>,
    vg: Seq<char>,
    lv: Seq<char>,
    number: (u32, u32),
    scan: Scan,
)
    requires
        lv.len() > 0,
        lv[0] != '-',
        crate::text::starts_with(entry.name@, "dm-"@),
        on_device(entries, entry.name@, nbd) == Ok::<bool, crate::sysfs::Complaint>(false),
        entry.dm_name matches Some(name) && crate::text::trimmed(name@) == mapping_name(vg, lv),
        entry.dm_uuid matches Some(uuid) && crate::text::starts_with(uuid@, "LVM-"@),
        depends(entries, entry.name@, nbd, Seq::empty()) == Ok::<bool, crate::sysfs::Complaint>(
            true,
        ),
        crate::sysfs::kernel_text(
            entry.dev,
            crate::text::decimal(number.0 as nat) + ":"@ + crate::text::decimal(number.1 as nat),
        ),
    ensures
        with_entry(
            entries,
            entry,
            Sought { nbd, vg, lv_mapping: mapping_name(vg, lv) },
            scan,
        ) == Ok::<Scan, crate::sysfs::Complaint>(
            Scan { vg_active: true, lv_device: Some(number), ..scan },
        ),
{
    mapping_names_tell_their_group(vg, lv);
    crate::sysfs::device_numbers_read_back(number.0, number.1);
}

/// A device that is built on the NBD device and its partitions, and on nothing
/// else, depends on it alone; one that is built on nothing does not.
pub proof fn devices_on_the_nbd_device_depend_on_it(
    entries: Seq<BlockEntry>,
    name: Seq<char>,
    nbd: Seq<char>,
    slaves: Seq<Seq<char>>,
)
    requires
        on_device(entries, name, nbd) == Ok::<bool, crate::sysfs::Complaint>(false),
        backing(entries, name) == Some(slaves),
        forall|i: int|
            0 <= i < slaves.len() ==> on_device(entries, #[trigger] slaves[i], nbd) == Ok::<
                bool,
                crate::sysfs::Complaint,
            >(true),
    ensures
        depends(entries, name, nbd, Seq::empty()) == Ok::<bool, crate::sysfs::Complaint>(
            slaves.len() > 0,
        ),
{
    let path = Seq::<Seq<char>>::empty().push(name);
    lemma_slaves_depend(entries, slaves, 0, nbd, path);
}

proof fn lemma_slaves_depend(
    entries: Seq<BlockEntry>,
    slaves: Seq<Seq<char>>,
    i: int,
    nbd: Seq<char>,
    path: Seq<Seq<char>>,
)
    requires
        0 <= i <= slaves.len(),
        path.len() == 1,
        forall|k: int|
            0 <= k < slaves.len() ==> on_device(entries, #[trigger] slaves[k], nbd) == Ok::<
                bool,
                crate::sysfs::Complaint,
            >(true),
    ensures
        depends_from(entries, slaves, i, nbd, path) == Ok::<bool, crate::sysfs::Complaint>(
            slaves.len() > 0,
        ),
    decreases slaves.len() - i,
{
    if i < slaves.len() {
        assert(on_device(entries, slaves[i], nbd) == Ok::<bool, crate::sysfs::Complaint>(true));
        assert(depends(entries, slaves[i], nbd, path) == Ok::<bool, crate::sysfs::Complaint>(true));
        lemma_slaves_depend(entries, slaves, i + 1, nbd, path);
    }
}

/// A mounted attachment with the right sentinel is accepted as it is, and where
/// nothing is mounted the sentinel does not matter.
pub proof fn the_sentinel_matters_only_where_something_is_mounted(
    record: BoundDeviceRecord,
    mountinfo: Seq<char>,
    entries: Seq<BlockEntry>,
    sentinel: Option<Seq<char>>,
    allow_missing: bool,
)
    requires
        observation(record, mountinfo, entries, sentinel, false, allow_missing) is Ok,
    ensures
        ({
            let unchecked = observation(
                record,
                mountinfo,
                entries,
                sentinel,
                false,
                allow_missing,
            );
            let checked = observation(record, mountinfo, entries, sentinel, true, allow_missing);
            if !unchecked->Ok_0.mounted || sentinel == Some(record.attachment.volume_uuid@) || (
            sentinel is None && allow_missing) {
                checked == unchecked
            } else {
                checked is Err
            }
        }),
{
}

/// A mapping of the group that is no LVM mapping, or that is not built on the NBD
/// device alone, stops the observation; one of another group says nothing.
pub proof fn foreign_mappings_stop_the_observation(
    entries: Seq<BlockEntry>,
    entry: BlockEntry,
    sought: Sought,
    scan: Scan,
    name: String,
    uuid: String,
)
    requires
        entry.dm_name == Some(name),
        entry.dm_uuid == Some(uuid),
    ensures
        mapped_group(crate::text::trimmed(name@)) == Some(sought.vg) && (!crate::text::starts_with(
            uuid@,
            "LVM-"@,
        ) || depends(entries, entry.name@, sought.nbd, Seq::empty()) != Ok::<
            bool,
            crate::sysfs::Complaint,
        >(true)) ==> with_mapping(entries, entry, sought, scan) is Err,
        mapped_group(crate::text::trimmed(name@)) != Some(sought.vg) ==> with_mapping(
            entries,
            entry,
            sought,
            scan,
        ) == Ok::<Scan, crate::sysfs::Complaint>(scan),
{
}

/// A name without a hyphen tells no group, and neither does one whose hyphens are
/// all doubled.
pub proof fn names_without_a_single_hyphen_tell_no_group(vg: Seq<char>)
    ensures
        mapped_group(crate::text::replaced(vg, '-', "--"@)) is None,
{
    lemma_doubled_group(vg, vg.len());
    assert(vg.skip(0) =~= vg);
}

proof fn lemma_doubled_group(vg: Seq<char>, n: nat)
    requires
        n <= vg.len(),
    ensures
        group_from(
            crate::text::replaced(vg, '-', "--"@),
            crate::text::replaced(vg.take(vg.len() - n), '-', "--"@).len() as int,
        ) is None,
    decreases n,
{
    reveal_strlit("--");
    let by = "--"@;
    let done = vg.take(vg.len() - n);
    let left = vg.skip(vg.len() - n);
    let s = crate::text::replaced(vg, '-', by);
    let i = crate::text::replaced(done, '-', by).len() as int;
    assert(vg =~= done + left);
    crate::text::characters_are_replaced_everywhere(done, left, '-', by);
    if n > 0 {
        lemma_doubled_group(vg, (n - 1) as nat);
        let c = vg[vg.len() - n];
        let next = vg.take(vg.len() - n + 1);
        let rest = vg.skip(vg.len() - n + 1);
        assert(next =~= done + seq![c]);
        assert(vg =~= next + rest);
        crate::text::characters_are_replaced_everywhere(done, seq![c], '-', by);
        crate::text::characters_are_replaced_everywhere(next, rest, '-', by);
        let one = crate::text::replaced(seq![c], '-', by);
        if c == '-' {
            assert(one =~= by);
            assert(s[i] == '-' && s[i + 1] == '-');
        } else {
            assert(!seq![c].contains('-')) by {
                if seq![c].contains('-') {
                    assert(seq![c][0] == '-');
                }
            }
            crate::text::characters_are_replaced_everywhere(seq![c], Seq::empty(), '-', by);
            assert(one =~= seq![c]);
            assert(s[i] == c);
        }
    } else {
        assert(done =~= vg);
    }
}

} // verus!
