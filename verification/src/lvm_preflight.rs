//! What must hold of the LVM metadata on an NBD device before its volume group
//! is activated, and of the mappings once it is.
//!
//! This is containment before activation, not authentication against a
//! configured identity: every physical volume that is reported must lie on the
//! recorded device, carry the label that was read from the device itself, and
//! belong to the one configured group. The verified identity is kept, so that
//! a recovery can be held to the same devices and the same group.

use vstd::prelude::*;

use crate::config::check_lvm_name;
use crate::detach::{logical_volume_mapping, mapped_volume_group, DetachObservation};
use crate::probe::nbd_index;
use crate::state::BoundDeviceRecord;
use crate::sysfs::{
    digits_only, find_entry, invalid, is_nbd_partition, number_of_entry, sector_count, BlockEntry,
    BlockTree, ProbeError,
};
use crate::table::{clone_texts, same_keys, same_texts, Table};
use crate::text::{
    alnum, chars_of, digit, from_utf8, has_prefix, join, join2, join3, lower, parse_upto, replace, same, sort,
    split_lines, split_once, split_text, strip_prefix, trim,
};

verus! {

broadcast use vstd::seq::group_seq_axioms;

/// The most devices that one preflight looks at.
pub const MAX_DEVICES: usize = 64;

/// The longest report that is read.
pub const MAX_REPORT: usize = 65_536;

/// A candidate device: the NBD device itself or one of its partitions.
#[derive(Debug, PartialEq, Eq)]
pub struct Device {
    pub path: String,
    pub number: (u32, u32),
    pub start: u64,
    pub sectors: u64,
}

/// The texts of a [`Device`].
pub struct Candidate {
    pub path: Seq<char>,
    pub number: (u32, u32),
    pub start: u64,
    pub sectors: u64,
}

impl View for Device {
    type V = Candidate;

    open spec fn view(&self) -> Candidate {
        Candidate {
            path: self.path@,
            number: self.number,
            start: self.start,
            sectors: self.sectors,
        }
    }
}

impl Clone for Device {
    fn clone(&self) -> (res: Self)
        ensures
            res@ == self@,
    {
        Device {
            path: self.path.clone(),
            number: self.number,
            start: self.start,
            sectors: self.sectors,
        }
    }
}

/// The texts of a list of devices.
pub open spec fn candidates(devices: Seq<Device>) -> Seq<Candidate> {
    devices.map_values(|d: Device| d@)
}

/// A copy of a list of devices.
pub fn clone_devices(devices: &Vec<Device>) -> (r: Vec<Device>)
    ensures
        candidates(r@) == candidates(devices@),
{
    let mut out: Vec<Device> = Vec::new();
    let mut i: usize = 0;
    while i < devices.len()
        invariant
            i <= devices.len(),
            out.len() == i,
            forall|k: int| 0 <= k < i ==> (#[trigger] out@[k])@ == devices@[k]@,
        decreases devices.len() - i,
    {
        out.push(devices[i].clone());
        i += 1;
    }
    assert(candidates(out@) =~= candidates(devices@));
    out
}

/// The two lists name the same devices in the same order.
pub fn same_devices(a: &Vec<Device>, b: &Vec<Device>) -> (r: bool)
    ensures
        r == (candidates(a@) == candidates(b@)),
{
    if a.len() != b.len() {
        assert(candidates(a@).len() != candidates(b@).len());
        return false;
    }
    let mut i: usize = 0;
    while i < a.len()
        invariant
            i <= a.len(),
            a.len() == b.len(),
            forall|k: int| 0 <= k < i ==> (#[trigger] a@[k])@ == b@[k]@,
        decreases a.len() - i,
    {
        let (x, y) = (&a[i], &b[i]);
        if !same(x.path.as_str(), y.path.as_str()) || x.number.0 != y.number.0 || x.number.1
            != y.number.1 || x.start != y.start || x.sectors != y.sectors {
            assert(candidates(a@)[i as int] != candidates(b@)[i as int]);
            return false;
        }
        i += 1;
    }
    assert(candidates(a@) =~= candidates(b@));
    true
}

/// The LVM identity that a preflight verified.
pub struct VerifiedLvm {
    pub devices: Vec<Device>,
    /// The physical volume of each labelled device, by device path.
    pub labels: Table<String>,
    pub vg_uuid: String,
    pub vg_seqno: u64,
    pub lv_uuid: String,
    /// The logical volumes of the group, by name.
    pub lvs: Table<String>,
    /// The layout of each logical volume, by its UUID.
    pub layouts: Table<Table<()>>,
}

/// The texts of a [`VerifiedLvm`].
pub struct Verified {
    pub devices: Seq<Candidate>,
    pub labels: Map<Seq<char>, Seq<char>>,
    pub vg_uuid: Seq<char>,
    pub vg_seqno: u64,
    pub lv_uuid: Seq<char>,
    pub lvs: Map<Seq<char>, Seq<char>>,
    pub layouts: Map<Seq<char>, Set<Seq<char>>>,
}

/// The sets of words behind a table of layouts.
pub open spec fn layout_sets(layouts: Map<Seq<char>, Table<()>>) -> Map<Seq<char>, Set<Seq<char>>> {
    layouts.map_values(|t: Table<()>| t@.dom())
}

impl View for VerifiedLvm {
    type V = Verified;

    open spec fn view(&self) -> Verified {
        Verified {
            devices: candidates(self.devices@),
            labels: crate::table::entries(self.labels@),
            vg_uuid: self.vg_uuid@,
            vg_seqno: self.vg_seqno,
            lv_uuid: self.lv_uuid@,
            lvs: crate::table::entries(self.lvs@),
            layouts: layout_sets(self.layouts@),
        }
    }
}

/// A copy of a set of words.
fn clone_set(set: &Table<()>) -> (r: Table<()>)
    ensures
        r@.dom() == set@.dom(),
{
    let keys = set.key_list();
    let ghost texts = set.keys();
    let mut out: Table<()> = Table::new();
    let mut i: usize = 0;
    while i < keys.len()
        invariant
            i <= keys.len(),
            texts == set.keys(),
            crate::text::strings(keys@) == texts,
            forall|k: Seq<char>| #[trigger] set@.contains_key(k) <==> texts.contains(k),
            forall|k: Seq<char>| #[trigger]
                out@.contains_key(k) <==> texts.take(i as int).contains(k),
        decreases keys.len() - i,
    {
        let ghost before = out@;
        assert(texts[i as int] == keys@[i as int]@);
        out.insert(keys[i].as_str(), ());
        proof {
            let head = texts.take(i as int);
            assert(texts.take(i + 1) =~= head.push(texts[i as int]));
            assert forall|k: Seq<char>| #[trigger] out@.contains_key(k) <==> texts.take(
                i + 1,
            ).contains(k) by {
                crate::table::lemma_push_holds(head, texts[i as int], k);
                assert(before.contains_key(k) <==> head.contains(k));
            }
        }
        i += 1;
    }
    proof {
        assert(texts.take(texts.len() as int) =~= texts);
        assert forall|k: Seq<char>| out@.dom().contains(k) <==> set@.dom().contains(k) by {
            assert(out@.contains_key(k) <==> texts.contains(k));
            assert(set@.contains_key(k) <==> texts.contains(k));
        }
        assert(out@.dom() =~= set@.dom());
    }
    out
}

/// A copy of a table of layouts.
fn clone_layouts(layouts: &Table<Table<()>>) -> (r: Table<Table<()>>)
    ensures
        layout_sets(r@) == layout_sets(layouts@),
{
    let keys = layouts.key_list();
    let ghost texts = layouts.keys();
    let mut out: Table<Table<()>> = Table::new();
    let mut i: usize = 0;
    while i < keys.len()
        invariant
            i <= keys.len(),
            texts == layouts.keys(),
            crate::text::strings(keys@) == texts,
            forall|k: Seq<char>| #[trigger] layouts@.contains_key(k) <==> texts.contains(k),
            forall|k: Seq<char>| #[trigger]
                out@.contains_key(k) <==> texts.take(i as int).contains(k),
            forall|k: Seq<char>| #[trigger]
                out@.contains_key(k) ==> out@[k]@.dom() == layouts@[k]@.dom(),
        decreases keys.len() - i,
    {
        let ghost before = out@;
        let ghost key = texts[i as int];
        assert(key == keys@[i as int]@);
        assert(texts.contains(key));
        assert(layouts@.contains_key(key));
        match layouts.get(keys[i].as_str()) {
            Some(set) => {
                out.insert(keys[i].as_str(), clone_set(set));
            },
            None => {},
        }
        proof {
            let head = texts.take(i as int);
            assert(texts.take(i + 1) =~= head.push(key));
            assert forall|k: Seq<char>| #[trigger] out@.contains_key(k) <==> texts.take(
                i + 1,
            ).contains(k) by {
                crate::table::lemma_push_holds(head, key, k);
                assert(before.contains_key(k) <==> head.contains(k));
            }
        }
        i += 1;
    }
    proof {
        assert(texts.take(texts.len() as int) =~= texts);
        assert forall|k: Seq<char>| #[trigger] layouts@.contains_key(k) <==> out@.contains_key(
            k,
        ) by {
            assert(texts.contains(k) <==> layouts@.contains_key(k));
        }
        assert(layout_sets(out@) =~= layout_sets(layouts@));
    }
    out
}

/// The two tables hold the same layouts.
fn same_layouts(a: &Table<Table<()>>, b: &Table<Table<()>>) -> (r: bool)
    ensures
        r == (layout_sets(a@) == layout_sets(b@)),
{
    if !same_keys(a, b) {
        assert(layout_sets(a@).dom() =~= a@.dom());
        assert(layout_sets(b@).dom() =~= b@.dom());
        return false;
    }
    let keys = a.key_list();
    let ghost texts = a.keys();
    let mut i: usize = 0;
    while i < keys.len()
        invariant
            i <= keys.len(),
            a@.dom() == b@.dom(),
            texts == a.keys(),
            crate::text::strings(keys@) == texts,
            forall|k: Seq<char>| #[trigger] a@.contains_key(k) <==> texts.contains(k),
            forall|j: int| 0 <= j < i ==> a@[#[trigger] texts[j]]@.dom() == b@[texts[j]]@.dom(),
        decreases keys.len() - i,
    {
        assert(texts[i as int] == keys@[i as int]@);
        assert(texts.contains(texts[i as int]));
        assert(a@.contains_key(texts[i as int]));
        assert(a@.dom().contains(texts[i as int]));
        match (a.get(keys[i].as_str()), b.get(keys[i].as_str())) {
            (Some(x), Some(y)) => {
                if !same_keys(x, y) {
                    assert(layout_sets(a@)[texts[i as int]] != layout_sets(b@)[texts[i as int]]);
                    return false;
                }
            },
            _ => {},
        }
        i += 1;
    }
    proof {
        assert forall|k: Seq<char>| #[trigger] a@.contains_key(k) implies a@[k]@.dom()
            == b@[k]@.dom() by {
            let j = texts.index_of(k);
            assert(texts[j] == k);
        }
        assert(layout_sets(a@) =~= layout_sets(b@));
    }
    true
}

impl Clone for VerifiedLvm {
    fn clone(&self) -> (res: Self)
        ensures
            res@ == self@,
    {
        VerifiedLvm {
            devices: clone_devices(&self.devices),
            labels: clone_texts(&self.labels),
            vg_uuid: self.vg_uuid.clone(),
            vg_seqno: self.vg_seqno,
            lv_uuid: self.lv_uuid.clone(),
            lvs: clone_texts(&self.lvs),
            layouts: clone_layouts(&self.layouts),
        }
    }
}

impl VerifiedLvm {
    /// Equality of every part.
    pub fn matches(&self, other: &VerifiedLvm) -> (r: bool)
        ensures
            r == (self@ == other@),
    {
        same_devices(&self.devices, &other.devices) && same_texts(&self.labels, &other.labels)
            && same(self.vg_uuid.as_str(), other.vg_uuid.as_str()) && self.vg_seqno
            == other.vg_seqno && same(self.lv_uuid.as_str(), other.lv_uuid.as_str()) && same_texts(
            &self.lvs,
            &other.lvs,
        ) && same_layouts(&self.layouts, &other.layouts)
    }
}

// ---------- identifiers ----------

/// The length of each part of an LVM identifier.
pub open spec fn uuid_width(i: int) -> nat {
    if i == 0 || i == 6 {
        6
    } else {
        4
    }
}

/// Letters and digits alone.
pub open spec fn alnum_run(part: Seq<char>) -> bool {
    forall|i: int| 0 <= i < part.len() ==> crate::text::is_alnum(#[trigger] part[i])
}

/// An LVM identifier: seven runs of letters and digits, joined by hyphens. It
/// is no hexadecimal UUID.
pub open spec fn lvm_uuid(value: Seq<char>) -> bool {
    let parts = crate::text::split(value, '-');
    &&& parts.len() == 7
    &&& forall|i: int|
        0 <= i < 7 ==> (#[trigger] parts[i]).len() == uuid_width(i) && alnum_run(parts[i])
}

fn is_alnum_run(part: &str) -> (r: bool)
    ensures
        r == alnum_run(part@),
{
    let cs = chars_of(part);
    let mut i: usize = 0;
    while i < cs.len()
        invariant
            i <= cs.len(),
            cs@ == part@,
            forall|k: int| 0 <= k < i ==> crate::text::is_alnum(#[trigger] part@[k]),
        decreases cs.len() - i,
    {
        if !alnum(cs[i]) {
            assert(!crate::text::is_alnum(part@[i as int]));
            return false;
        }
        i += 1;
    }
    true
}

/// Whether the text is an LVM identifier.
pub fn is_lvm_uuid(value: &str) -> (r: bool)
    ensures
        r == lvm_uuid(value@),
{
    let parts = split_text(value, '-');
    let ghost texts = crate::text::split(value@, '-');
    assert(texts.len() == parts@.len());
    if parts.len() != 7 {
        return false;
    }
    let mut i: usize = 0;
    while i < 7
        invariant
            i <= 7,
            parts.len() == 7,
            texts == crate::text::texts(parts@),
            texts == crate::text::split(value@, '-'),
            forall|k: int|
                0 <= k < i ==> (#[trigger] texts[k]).len() == uuid_width(k) && alnum_run(texts[k]),
        decreases 7 - i,
    {
        assert(texts[i as int] == parts@[i as int]@);
        let width: usize = if i == 0 || i == 6 {
            6
        } else {
            4
        };
        if parts[i].unicode_len() != width || !is_alnum_run(parts[i]) {
            return false;
        }
        i += 1;
    }
    true
}

// ---------- a persisted identity ----------

/// A word of a layout.
pub open spec fn layout_word(token: Seq<char>) -> bool {
    &&& token.len() > 0
    &&& forall|i: int|
        0 <= i < token.len() ==> crate::text::is_lower(#[trigger] token[i])
            || crate::text::is_digit(token[i]) || token[i] == '_' || token[i] == '-'
}

fn is_layout_word(token: &str) -> (r: bool)
    ensures
        r == layout_word(token@),
{
    let cs = chars_of(token);
    if cs.len() == 0 {
        return false;
    }
    let mut i: usize = 0;
    while i < cs.len()
        invariant
            i <= cs.len(),
            cs@ == token@,
            forall|k: int|
                0 <= k < i ==> crate::text::is_lower(#[trigger] token@[k])
                    || crate::text::is_digit(token@[k]) || token@[k] == '_' || token@[k] == '-',
        decreases cs.len() - i,
    {
        let c = cs[i];
        if !(lower(c) || digit(c) || c == '_' || c == '-') {
            assert(token@[i as int] == c);
            return false;
        }
        i += 1;
    }
    true
}

/// The name of a device below `/dev/` is the NBD device or one of its
/// partitions.
pub open spec fn own_name(name: Seq<char>, nbd: Seq<char>) -> bool {
    name == nbd || match crate::text::after_prefix(name, nbd + "p"@) {
        Some(suffix) => suffix.len() > 0 && crate::text::all_digits(suffix),
        None => false,
    }
}

fn is_own_name(name: &str, nbd: &str) -> (r: bool)
    ensures
        r == own_name(name@, nbd@),
{
    if same(name, nbd) {
        return true;
    }
    let prefix = join2(nbd, "p");
    match strip_prefix(name, prefix.as_str()) {
        Some(suffix) => !suffix.is_empty() && digits_only(suffix),
        None => false,
    }
}

/// A device at an earlier position has the same path or the same number.
pub open spec fn repeats(devices: Seq<Candidate>, i: int) -> bool {
    exists|j: int|
        0 <= j < i && ((#[trigger] devices[j]).path == devices[i].path || devices[j].number
            == devices[i].number)
}

/// The complaint about the device at `i`.
pub open spec fn persisted_device_complaint(
    devices: Seq<Candidate>,
    nbd: Seq<char>,
    i: int,
) -> Option<Seq<char>> {
    let device = devices[i];
    match crate::text::after_prefix(device.path, "/dev/"@) {
        None => Some("invalid persisted LVM device path"@),
        Some(name) => if !own_name(name, nbd) {
            Some("invalid persisted LVM device path"@)
        } else if device.sectors == 0 || device.start + device.sectors > u64::MAX || repeats(
            devices,
            i,
        ) {
            Some("invalid persisted LVM device identity"@)
        } else if name == nbd && device.start != 0 {
            Some("invalid persisted root NBD identity"@)
        } else {
            None
        },
    }
}

/// The first complaint about a device at or after `i`.
pub open spec fn persisted_devices_complaint(
    devices: Seq<Candidate>,
    nbd: Seq<char>,
    i: int,
) -> Option<Seq<char>>
    decreases devices.len() - i,
{
    if i < 0 || i >= devices.len() {
        None
    } else {
        match persisted_device_complaint(devices, nbd, i) {
            Some(m) => Some(m),
            None => persisted_devices_complaint(devices, nbd, i + 1),
        }
    }
}

/// The sectors of the device with that path, looked for from `i` on.
pub open spec fn sectors_at(devices: Seq<Candidate>, path: Seq<char>, i: int) -> Option<u64>
    decreases devices.len() - i,
{
    if i < 0 || i >= devices.len() {
        None
    } else if devices[i].path == path {
        Some(devices[i].sectors)
    } else {
        sectors_at(devices, path, i + 1)
    }
}

/// Some device has that path.
pub open spec fn listed(devices: Seq<Candidate>, path: Seq<char>) -> bool {
    exists|i: int| 0 <= i < devices.len() && (#[trigger] devices[i]).path == path
}

/// Every label stands on a listed device, is an LVM identifier, and is borne
/// once.
pub open spec fn labels_sound(devices: Seq<Candidate>, labels: Map<Seq<char>, Seq<char>>) -> bool {
    &&& forall|k: Seq<char>| #[trigger]
        labels.contains_key(k) ==> listed(devices, k) && lvm_uuid(labels[k])
    &&& forall|a: Seq<char>, b: Seq<char>|
        #![trigger labels.contains_key(a), labels.contains_key(b)]
        labels.contains_key(a) && labels.contains_key(b) && labels[a] == labels[b] ==> a == b
}

/// The first complaint about a logical volume at or after position `i` of the
/// names.
pub open spec fn persisted_lv_complaint(
    names: Seq<Seq<char>>,
    lvs: Map<Seq<char>, Seq<char>>,
    i: int,
) -> Option<Seq<char>>
    decreases names.len() - i,
{
    if i < 0 || i >= names.len() {
        None
    } else if crate::config::lvm_complaint("persisted_lv_name"@, names[i]) is Some {
        Some("invalid persisted LV name"@)
    } else if !lvm_uuid(lvs[names[i]]) || (exists|j: int|
        0 <= j < i && lvs[#[trigger] names[j]] == lvs[names[i]]) {
        Some("invalid persisted LV identity"@)
    } else {
        persisted_lv_complaint(names, lvs, i + 1)
    }
}

/// A layout that can be verified after activation.
pub open spec fn layout_sound(layout: Set<Seq<char>>) -> bool {
    &&& layout != Set::<Seq<char>>::empty()
    &&& forall|t: Seq<char>| #[trigger] layout.contains(t) ==> layout_word(t)
    &&& !(layout.contains("cache"@) && layout.contains("cachevol"@))
}

/// There is one sound layout for each logical volume.
pub open spec fn layouts_sound(
    layouts: Map<Seq<char>, Set<Seq<char>>>,
    lvs: Map<Seq<char>, Seq<char>>,
) -> bool {
    &&& forall|id: Seq<char>| #[trigger]
        layouts.contains_key(id) <==> exists|name: Seq<char>| #[trigger]
            lvs.contains_key(name) && lvs[name] == id
    &&& forall|id: Seq<char>| #[trigger] layouts.contains_key(id) ==> layout_sound(layouts[id])
}

/// The complaint about a persisted identity, in the order of the checks.
pub open spec fn persisted_complaint(
    device: Seq<char>,
    lv_name: Seq<char>,
    verified: Verified,
    lv_names: Seq<Seq<char>>,
) -> Option<Seq<char>> {
    if verified.devices.len() == 0 || verified.devices.len() > MAX_DEVICES {
        Some("invalid persisted LVM device count"@)
    } else {
        match crate::text::after_prefix(device, "/dev/"@) {
            None => Some("invalid NBD path"@),
            Some(nbd) => match persisted_devices_complaint(verified.devices, nbd, 0) {
                Some(m) => Some(m),
                None => match sectors_at(verified.devices, device, 0) {
                    None => Some("persisted NBD root is missing"@),
                    Some(total) => if exists|i: int|
                        0 <= i < verified.devices.len() && (#[trigger] verified.devices[i]).start
                            + verified.devices[i].sectors > total {
                        Some("persisted NBD partition is outside the device"@)
                    } else if verified.labels.dom() == Set::<Seq<char>>::empty() || !labels_sound(
                        verified.devices,
                        verified.labels,
                    ) || !lvm_uuid(verified.vg_uuid) || !lvm_uuid(verified.lv_uuid)
                        || lv_names.len() == 0 || lv_names.len() > MAX_DEVICES {
                        Some("invalid persisted LVM metadata identity"@)
                    } else {
                        match persisted_lv_complaint(lv_names, verified.lvs, 0) {
                            Some(m) => Some(m),
                            None => if !(verified.lvs.contains_key(lv_name)
                                && verified.lvs[lv_name] == verified.lv_uuid) || !layouts_sound(
                                verified.layouts,
                                verified.lvs,
                            ) {
                                Some("inconsistent persisted LVM identity"@)
                            } else {
                                None
                            },
                        }
                    },
                },
            },
        }
    }
}

/// The complaint about the devices of a persisted identity.
fn check_persisted_devices(devices: &Vec<Device>, nbd: &str) -> (r: Option<&'static str>)
    ensures
        crate::sysfs::says(r, persisted_devices_complaint(candidates(devices@), nbd@, 0)),
{
    let ghost all = candidates(devices@);
    let mut i: usize = 0;
    while i < devices.len()
        invariant
            i <= devices.len(),
            all == candidates(devices@),
            persisted_devices_complaint(all, nbd@, 0) == persisted_devices_complaint(
                all,
                nbd@,
                i as int,
            ),
        decreases devices.len() - i,
    {
        let device = &devices[i];
        assert(all[i as int] == device@);
        let name = match strip_prefix(device.path.as_str(), "/dev/") {
            Some(name) => name,
            None => return Some("invalid persisted LVM device path"),
        };
        if !is_own_name(name, nbd) {
            return Some("invalid persisted LVM device path");
        }
        let mut repeated = false;
        let mut j: usize = 0;
        while j < i
            invariant
                j <= i,
                i < devices.len(),
                all == candidates(devices@),
                device@ == all[i as int],
                *device == devices@[i as int],
                repeated == exists|k: int|
                    0 <= k < j && ((#[trigger] all[k]).path == all[i as int].path || all[k].number
                        == all[i as int].number),
            decreases i - j,
        {
            assert(all[j as int] == devices@[j as int]@);
            if same(devices[j].path.as_str(), device.path.as_str()) || (devices[j].number.0
                == device.number.0 && devices[j].number.1 == device.number.1) {
                repeated = true;
            }
            j += 1;
        }
        assert(repeated == repeats(all, i as int));
        if device.sectors == 0 || device.start > u64::MAX - device.sectors || repeated {
            return Some("invalid persisted LVM device identity");
        }
        if same(name, nbd) && device.start != 0 {
            return Some("invalid persisted root NBD identity");
        }
        i += 1;
    }
    None
}

/// The sectors of the device with that path.
fn find_sectors(devices: &Vec<Device>, path: &str) -> (r: Option<u64>)
    ensures
        r == sectors_at(candidates(devices@), path@, 0),
{
    let ghost all = candidates(devices@);
    let mut i: usize = 0;
    while i < devices.len()
        invariant
            i <= devices.len(),
            all == candidates(devices@),
            sectors_at(all, path@, 0) == sectors_at(all, path@, i as int),
        decreases devices.len() - i,
    {
        assert(all[i as int] == devices@[i as int]@);
        if same(devices[i].path.as_str(), path) {
            return Some(devices[i].sectors);
        }
        i += 1;
    }
    None
}

/// Some device has that path.
fn is_listed(devices: &Vec<Device>, path: &str) -> (r: bool)
    ensures
        r == listed(candidates(devices@), path@),
{
    let ghost all = candidates(devices@);
    let mut i: usize = 0;
    while i < devices.len()
        invariant
            i <= devices.len(),
            all == candidates(devices@),
            forall|k: int| 0 <= k < i ==> (#[trigger] all[k]).path != path@,
        decreases devices.len() - i,
    {
        assert(all[i as int] == devices@[i as int]@);
        if same(devices[i].path.as_str(), path) {
            return true;
        }
        i += 1;
    }
    false
}

/// Some device ends beyond the given number of sectors.
fn reaches_beyond(devices: &Vec<Device>, total: u64) -> (r: bool)
    requires
        forall|i: int|
            0 <= i < candidates(devices@).len() ==> (#[trigger] candidates(devices@)[i]).start
                + candidates(devices@)[i].sectors <= u64::MAX,
    ensures
        r == exists|i: int|
            0 <= i < candidates(devices@).len() && (#[trigger] candidates(devices@)[i]).start
                + candidates(devices@)[i].sectors > total,
{
    let ghost all = candidates(devices@);
    let mut i: usize = 0;
    while i < devices.len()
        invariant
            i <= devices.len(),
            all == candidates(devices@),
            forall|k: int|
                0 <= k < all.len() ==> (#[trigger] all[k]).start + all[k].sectors <= u64::MAX,
            forall|k: int| 0 <= k < i ==> (#[trigger] all[k]).start + all[k].sectors <= total,
        decreases devices.len() - i,
    {
        assert(all[i as int] == devices@[i as int]@);
        if devices[i].start + devices[i].sectors > total {
            return true;
        }
        i += 1;
    }
    false
}

proof fn lemma_devices_bounded(devices: Seq<Candidate>, nbd: Seq<char>, i: int)
    requires
        0 <= i,
        persisted_devices_complaint(devices, nbd, i) is None,
    ensures
        forall|k: int|
            i <= k < devices.len() ==> (#[trigger] devices[k]).start + devices[k].sectors
                <= u64::MAX,
    decreases devices.len() - i,
{
    if i < devices.len() {
        lemma_devices_bounded(devices, nbd, i + 1);
    }
}

/// Some key of the table has that text.
fn holds_text(table: &Table<String>, text: &str) -> (r: bool)
    ensures
        r == exists|k: Seq<char>| #[trigger]
            crate::table::entries(table@).contains_key(k) && crate::table::entries(table@)[k]
                == text@,
{
    let keys = table.key_list();
    let ghost texts = table.keys();
    let ghost map = crate::table::entries(table@);
    let mut i: usize = 0;
    while i < keys.len()
        invariant
            i <= keys.len(),
            map == crate::table::entries(table@),
            texts == table.keys(),
            crate::text::strings(keys@) == texts,
            forall|k: Seq<char>| #[trigger] table@.contains_key(k) <==> texts.contains(k),
            forall|j: int| 0 <= j < i ==> map[#[trigger] texts[j]] != text@,
        decreases keys.len() - i,
    {
        let ghost key = texts[i as int];
        assert(key == keys@[i as int]@);
        assert(texts.contains(key));
        assert(table@.contains_key(key));
        match table.get(keys[i].as_str()) {
            Some(value) => {
                if same(value.as_str(), text) {
                    assert(map.contains_key(key));
                    return true;
                }
            },
            None => {},
        }
        i += 1;
    }
    assert forall|k: Seq<char>| #[trigger] map.contains_key(k) implies map[k] != text@ by {
        assert(table@.contains_key(k));
        let j = texts.index_of(k);
        assert(texts[j] == k);
    }
    false
}

/// Every label stands on a listed device, is an LVM identifier, and is borne
/// once.
fn check_labels(devices: &Vec<Device>, labels: &Table<String>) -> (r: bool)
    ensures
        r == labels_sound(candidates(devices@), crate::table::entries(labels@)),
{
    let keys = labels.key_list();
    let ghost texts = labels.keys();
    let ghost map = crate::table::entries(labels@);
    let ghost all = candidates(devices@);
    let mut i: usize = 0;
    while i < keys.len()
        invariant
            i <= keys.len(),
            map == crate::table::entries(labels@),
            all == candidates(devices@),
            texts == labels.keys(),
            texts.no_duplicates(),
            crate::text::strings(keys@) == texts,
            forall|k: Seq<char>| #[trigger] labels@.contains_key(k) <==> texts.contains(k),
            forall|j: int|
                0 <= j < i ==> listed(all, #[trigger] texts[j]) && lvm_uuid(map[texts[j]]),
            forall|a: int, b: int|
                0 <= a < b < i ==> map[#[trigger] texts[a]] != map[#[trigger] texts[b]],
        decreases keys.len() - i,
    {
        let ghost key = texts[i as int];
        assert(key == keys@[i as int]@);
        assert(texts.contains(key));
        assert(labels@.contains_key(key));
        assert(map.contains_key(key));
        if !is_listed(devices, keys[i].as_str()) {
            return false;
        }
        match labels.get(keys[i].as_str()) {
            Some(id) => {
                if !is_lvm_uuid(id.as_str()) {
                    return false;
                }
                let mut j: usize = 0;
                while j < i
                    invariant
                        j <= i,
                        i < keys.len(),
                        map == crate::table::entries(labels@),
                        texts.no_duplicates(),
                        crate::text::strings(keys@) == texts,
                        forall|k: Seq<char>| #[trigger]
                            labels@.contains_key(k) <==> texts.contains(k),
                        map[texts[i as int]] == id@,
                        map.contains_key(texts[i as int]),
                        forall|a: int| 0 <= a < j ==> map[#[trigger] texts[a]] != id@,
                    decreases i - j,
                {
                    assert(texts[j as int] == keys@[j as int]@);
                    assert(texts.contains(texts[j as int]));
                    assert(labels@.contains_key(texts[j as int]));
                    match labels.get(keys[j].as_str()) {
                        Some(other) => {
                            if same(other.as_str(), id.as_str()) {
                                assert(map.contains_key(texts[j as int]));
                                assert(texts[j as int] != texts[i as int]);
                                return false;
                            }
                        },
                        None => {},
                    }
                    j += 1;
                }
            },
            None => {},
        }
        i += 1;
    }
    proof {
        assert forall|k: Seq<char>| #[trigger] map.contains_key(k) implies listed(all, k)
            && lvm_uuid(map[k]) by {
            assert(labels@.contains_key(k));
            let j = texts.index_of(k);
            assert(texts[j] == k);
        }
        assert forall|a: Seq<char>, b: Seq<char>|
            #![trigger map.contains_key(a), map.contains_key(b)]
            map.contains_key(a) && map.contains_key(b) && map[a] == map[b] implies a == b by {
            assert(labels@.contains_key(a));
            assert(labels@.contains_key(b));
            let x = texts.index_of(a);
            let y = texts.index_of(b);
            assert(texts[x] == a);
            assert(texts[y] == b);
            if x < y {
                assert(map[texts[x]] != map[texts[y]]);
            } else if y < x {
                assert(map[texts[y]] != map[texts[x]]);
            }
        }
    }
    true
}

/// The complaint about the logical volumes of a persisted identity.
fn check_persisted_lvs(lvs: &Table<String>) -> (r: Option<&'static str>)
    ensures
        crate::sysfs::says(
            r,
            persisted_lv_complaint(lvs.keys(), crate::table::entries(lvs@), 0),
        ),
{
    let keys = lvs.key_list();
    let ghost names = lvs.keys();
    let ghost map = crate::table::entries(lvs@);
    let mut i: usize = 0;
    while i < keys.len()
        invariant
            i <= keys.len(),
            names == lvs.keys(),
            map == crate::table::entries(lvs@),
            crate::text::strings(keys@) == names,
            forall|k: Seq<char>| #[trigger] lvs@.contains_key(k) <==> names.contains(k),
            persisted_lv_complaint(names, map, 0) == persisted_lv_complaint(names, map, i as int),
        decreases keys.len() - i,
    {
        let ghost name = names[i as int];
        assert(name == keys@[i as int]@);
        assert(names.contains(name));
        assert(lvs@.contains_key(name));
        if check_lvm_name("persisted_lv_name", keys[i].as_str()).is_err() {
            return Some("invalid persisted LV name");
        }
        match lvs.get(keys[i].as_str()) {
            Some(id) => {
                let mut repeated = false;
                let mut j: usize = 0;
                while j < i
                    invariant
                        j <= i,
                        i < keys.len(),
                        map == crate::table::entries(lvs@),
                        crate::text::strings(keys@) == names,
                        forall|k: Seq<char>| #[trigger]
                            lvs@.contains_key(k) <==> names.contains(k),
                        map[names[i as int]] == id@,
                        repeated == exists|a: int| 0 <= a < j && map[#[trigger] names[a]] == id@,
                    decreases i - j,
                {
                    assert(names[j as int] == keys@[j as int]@);
                    assert(names.contains(names[j as int]));
                    assert(lvs@.contains_key(names[j as int]));
                    match lvs.get(keys[j].as_str()) {
                        Some(other) => {
                            if same(other.as_str(), id.as_str()) {
                                repeated = true;
                            }
                        },
                        None => {},
                    }
                    j += 1;
                }
                if !is_lvm_uuid(id.as_str()) || repeated {
                    return Some("invalid persisted LV identity");
                }
            },
            None => {},
        }
        i += 1;
    }
    None
}

/// A layout that can be verified after activation.
fn check_layout(layout: &Table<()>) -> (r: bool)
    ensures
        r == layout_sound(layout@.dom()),
{
    let keys = layout.key_list();
    let ghost texts = layout.keys();
    if keys.len() == 0 {
        assert forall|k: Seq<char>| !layout@.dom().contains(k) by {
            assert(layout@.contains_key(k) <==> texts.contains(k));
        }
        assert(layout@.dom() =~= Set::<Seq<char>>::empty());
        return false;
    }
    assert(layout@.dom().contains(texts[0])) by {
        assert(texts.contains(texts[0]));
        assert(layout@.contains_key(texts[0]));
    }
    let mut i: usize = 0;
    while i < keys.len()
        invariant
            i <= keys.len(),
            texts == layout.keys(),
            crate::text::strings(keys@) == texts,
            forall|k: Seq<char>| #[trigger] layout@.contains_key(k) <==> texts.contains(k),
            forall|j: int| 0 <= j < i ==> layout_word(#[trigger] texts[j]),
        decreases keys.len() - i,
    {
        assert(texts[i as int] == keys@[i as int]@);
        if !is_layout_word(keys[i].as_str()) {
            assert(texts.contains(texts[i as int]));
            assert(layout@.contains_key(texts[i as int]));
            assert(layout@.dom().contains(texts[i as int]));
            return false;
        }
        i += 1;
    }
    assert forall|t: Seq<char>| #[trigger] layout@.dom().contains(t) implies layout_word(t) by {
        assert(layout@.contains_key(t));
        let j = texts.index_of(t);
        assert(texts[j] == t);
    }
    !(layout.contains_key("cache") && layout.contains_key("cachevol"))
}

/// There is one sound layout for each logical volume.
fn check_layouts(layouts: &Table<Table<()>>, lvs: &Table<String>) -> (r: bool)
    ensures
        r == layouts_sound(layout_sets(layouts@), crate::table::entries(lvs@)),
{
    let ghost sets = layout_sets(layouts@);
    let ghost map = crate::table::entries(lvs@);
    let keys = layouts.key_list();
    let ghost ids = layouts.keys();
    let mut i: usize = 0;
    while i < keys.len()
        invariant
            i <= keys.len(),
            sets == layout_sets(layouts@),
            map == crate::table::entries(lvs@),
            ids == layouts.keys(),
            crate::text::strings(keys@) == ids,
            forall|k: Seq<char>| #[trigger] layouts@.contains_key(k) <==> ids.contains(k),
            forall|j: int|
                0 <= j < i ==> layout_sound(sets[#[trigger] ids[j]]) && exists|name: Seq<char>|
                 #[trigger] map.contains_key(name) && map[name] == ids[j],
        decreases keys.len() - i,
    {
        let ghost id = ids[i as int];
        assert(id == keys@[i as int]@);
        assert(ids.contains(id));
        assert(layouts@.contains_key(id));
        assert(sets.contains_key(id));
        if !holds_text(lvs, keys[i].as_str()) {
            return false;
        }
        match layouts.get(keys[i].as_str()) {
            Some(layout) => {
                if !check_layout(layout) {
                    return false;
                }
            },
            None => {},
        }
        i += 1;
    }
    let names = lvs.key_list();
    let ghost texts = lvs.keys();
    let mut j: usize = 0;
    while j < names.len()
        invariant
            j <= names.len(),
            sets == layout_sets(layouts@),
            map == crate::table::entries(lvs@),
            texts == lvs.keys(),
            crate::text::strings(names@) == texts,
            forall|k: Seq<char>| #[trigger] lvs@.contains_key(k) <==> texts.contains(k),
            forall|a: int| 0 <= a < j ==> sets.contains_key(map[#[trigger] texts[a]]),
        decreases names.len() - j,
    {
        let ghost name = texts[j as int];
        assert(name == names@[j as int]@);
        assert(texts.contains(name));
        assert(lvs@.contains_key(name));
        assert(map.contains_key(name));
        match lvs.get(names[j].as_str()) {
            Some(id) => {
                if !layouts.contains_key(id.as_str()) {
                    assert(!sets.contains_key(map[name]));
                    return false;
                }
            },
            None => {},
        }
        j += 1;
    }
    proof {
        assert forall|id: Seq<char>| #[trigger] sets.contains_key(id) <==> exists|name: Seq<char>|
         #[trigger] map.contains_key(name) && map[name] == id by {
            if sets.contains_key(id) {
                assert(layouts@.contains_key(id));
                let a = ids.index_of(id);
                assert(ids[a] == id);
            }
            if exists|name: Seq<char>| #[trigger] map.contains_key(name) && map[name] == id {
                let name = choose|name: Seq<char>| #[trigger]
                    map.contains_key(name) && map[name] == id;
                assert(lvs@.contains_key(name));
                let a = texts.index_of(name);
                assert(texts[a] == name);
            }
        }
        assert forall|id: Seq<char>| #[trigger] sets.contains_key(id) implies layout_sound(
            sets[id],
        ) by {
            assert(layouts@.contains_key(id));
            let a = ids.index_of(id);
            assert(ids[a] == id);
        }
    }
    true
}

/// Whether a table has no key.
fn has_no_keys(table: &Table<String>) -> (r: bool)
    ensures
        r == (crate::table::entries(table@).dom() == Set::<Seq<char>>::empty()),
{
    let keys = table.key_list();
    let ghost texts = table.keys();
    let ghost map = crate::table::entries(table@);
    if keys.len() == 0 {
        assert forall|k: Seq<char>| !map.dom().contains(k) by {
            assert(table@.contains_key(k) <==> texts.contains(k));
        }
        assert(map.dom() =~= Set::<Seq<char>>::empty());
        true
    } else {
        assert(texts.contains(texts[0]));
        assert(table@.contains_key(texts[0]));
        assert(map.dom().contains(texts[0]));
        false
    }
}

/// Hold a persisted identity to what a recovery may rely on: its devices are
/// the recorded NBD device and partitions within it, and its metadata is
/// consistent.
pub fn validate_recovery_identity(record: &BoundDeviceRecord, verified: &VerifiedLvm) -> (r: Result<
    (),
    ProbeError,
>)
    ensures
        crate::sysfs::passes(
            r,
            persisted_complaint(
                record.device@,
                record.attachment.lv_name@,
                verified@,
                verified.lvs.keys(),
            ),
        ),
{
    if verified.devices.len() == 0 || verified.devices.len() > MAX_DEVICES {
        return Err(invalid("invalid persisted LVM device count"));
    }
    let nbd = match strip_prefix(record.device.as_str(), "/dev/") {
        Some(nbd) => nbd,
        None => return Err(invalid("invalid NBD path")),
    };
    match check_persisted_devices(&verified.devices, nbd) {
        Some(message) => return Err(invalid(message)),
        None => {},
    }
    let total: u64 = match find_sectors(&verified.devices, record.device.as_str()) {
        Some(total) => total,
        None => return Err(invalid("persisted NBD root is missing")),
    };
    proof {
        lemma_devices_bounded(verified@.devices, nbd@, 0);
    }
    if reaches_beyond(&verified.devices, total) {
        return Err(invalid("persisted NBD partition is outside the device"));
    }
    if has_no_keys(&verified.labels) || !check_labels(&verified.devices, &verified.labels)
        || !is_lvm_uuid(verified.vg_uuid.as_str()) || !is_lvm_uuid(verified.lv_uuid.as_str())
        || verified.lvs.len() == 0 || verified.lvs.len() > MAX_DEVICES {
        return Err(invalid("invalid persisted LVM metadata identity"));
    }
    match check_persisted_lvs(&verified.lvs) {
        Some(message) => return Err(invalid(message)),
        None => {},
    }
    let named = match verified.lvs.get(record.attachment.lv_name.as_str()) {
        Some(id) => same(id.as_str(), verified.lv_uuid.as_str()),
        None => false,
    };
    assert(named == (verified@.lvs.contains_key(record.attachment.lv_name@)
        && verified@.lvs[record.attachment.lv_name@] == verified@.lv_uuid));
    if !named || !check_layouts(&verified.layouts, &verified.lvs) {
        return Err(invalid("inconsistent persisted LVM identity"));
    }
    Ok(())
}

// ---------- discovery ----------

/// The names among the first `n` entries that begin like a partition of the
/// NBD device, in the order of the entries.
pub open spec fn partition_names(entries: Seq<BlockEntry>, nbd: Seq<char>, n: nat) -> Seq<Seq<char>>
    decreases n,
{
    if n == 0 {
        Seq::empty()
    } else if crate::text::starts_with(entries[n - 1].name@, nbd + "p"@) {
        partition_names(entries, nbd, (n - 1) as nat).push(entries[n - 1].name@)
    } else {
        partition_names(entries, nbd, (n - 1) as nat)
    }
}

/// Where a candidate lies on the NBD device: its first sector and its length.
pub open spec fn extent_of(
    entries: Seq<BlockEntry>,
    entry: BlockEntry,
    nbd: Seq<char>,
    total: u64,
) -> Result<(u64, u64), crate::sysfs::Complaint> {
    if entry.name@ == nbd {
        Ok((0, total))
    } else {
        match crate::sysfs::partition_of(entries, entry.name@, nbd) {
            Err(c) => Err(c),
            Ok(own) => if !own || crate::text::optional(entry.parent) != Some(nbd) {
                Err(
                    crate::sysfs::Complaint::Invalid(
                        "NBD partition is not a child of the recorded kernel device"@,
                    ),
                )
            } else {
                match crate::sysfs::sectors_of(entry.start) {
                    Err(c) => Err(c),
                    Ok(start) => match crate::sysfs::sectors_of(entry.size) {
                        Err(c) => Err(c),
                        Ok(sectors) => if sectors == 0 || start + sectors > total {
                            Err(
                                crate::sysfs::Complaint::Invalid(
                                    "NBD partition lies outside the recorded device"@,
                                ),
                            )
                        } else {
                            Ok((start, sectors))
                        },
                    },
                }
            },
        }
    }
}

/// The candidate of that name, given those found before it.
pub open spec fn candidate_of(
    entries: Seq<BlockEntry>,
    name: Seq<char>,
    nbd: Seq<char>,
    total: u64,
    before: Seq<Candidate>,
) -> Result<Candidate, crate::sysfs::Complaint> {
    match crate::sysfs::entry_named(entries, name) {
        None => Err(crate::sysfs::Complaint::Unreadable),
        Some(entry) => match extent_of(entries, entry, nbd, total) {
            Err(c) => Err(c),
            Ok((start, sectors)) => match entry.holders {
                None => Err(crate::sysfs::Complaint::Unreadable),
                Some(holders) => if holders@.len() > 0 {
                    Err(
                        crate::sysfs::Complaint::Invalid(
                            "LVM candidate already has a kernel holder"@,
                        ),
                    )
                } else {
                    match crate::sysfs::entry_number(entry) {
                        Err(c) => Err(c),
                        Ok(number) => if exists|i: int|
                            0 <= i < before.len() && (#[trigger] before[i]).number == number {
                            Err(
                                crate::sysfs::Complaint::Invalid(
                                    "LVM candidate device node does not match kernel identity"@,
                                ),
                            )
                        } else {
                            match entry.node {
                                None => Err(crate::sysfs::Complaint::Unreadable),
                                Some(node) => if node != number {
                                    Err(
                                        crate::sysfs::Complaint::Invalid(
                                            "LVM candidate device node does not match kernel identity"@,
                                        ),
                                    )
                                } else {
                                    Ok(
                                        Candidate {
                                            path: "/dev/"@ + name,
                                            number,
                                            start,
                                            sectors,
                                        },
                                    )
                                },
                            }
                        },
                    }
                },
            },
        },
    }
}

/// The candidates of the first `n` names.
pub open spec fn candidates_upto(
    entries: Seq<BlockEntry>,
    names: Seq<Seq<char>>,
    nbd: Seq<char>,
    total: u64,
    n: nat,
) -> Result<Seq<Candidate>, crate::sysfs::Complaint>
    decreases n,
{
    if n == 0 {
        Ok(Seq::empty())
    } else {
        match candidates_upto(entries, names, nbd, total, (n - 1) as nat) {
            Err(c) => Err(c),
            Ok(before) => match candidate_of(entries, names[n - 1], nbd, total, before) {
                Err(c) => Err(c),
                Ok(found) => Ok(before.push(found)),
            },
        }
    }
}

/// The NBD device and its partitions, in the order of their names. None of them
/// may have a holder yet, and each device node must be the kernel's own.
pub open spec fn discovered(
    entries: Seq<BlockEntry>,
    odd_names: bool,
    device: Seq<char>,
) -> Result<Seq<Candidate>, crate::sysfs::Complaint> {
    if crate::probe::device_index(device) is None {
        Err(crate::sysfs::Complaint::Invalid("invalid NBD device for LVM preflight"@))
    } else {
        let nbd = device.skip(5);
        match crate::sysfs::entry_named(entries, nbd) {
            None => Err(crate::sysfs::Complaint::Unreadable),
            Some(root) => match crate::sysfs::sectors_of(root.size) {
                Err(c) => Err(c),
                Ok(total) => if total == 0 {
                    Err(crate::sysfs::Complaint::Invalid("NBD geometry is empty"@))
                } else if odd_names {
                    Err(crate::sysfs::Complaint::Invalid("invalid block name"@))
                } else {
                    let parts = partition_names(entries, nbd, entries.len());
                    if parts.len() >= MAX_DEVICES {
                        Err(
                            crate::sysfs::Complaint::Invalid(
                                "too many NBD partitions for LVM preflight"@,
                            ),
                        )
                    } else {
                        let names = crate::text::sorted(seq![nbd] + parts);
                        candidates_upto(entries, names, nbd, total, names.len())
                    }
                },
            },
        }
    }
}

proof fn lemma_candidates_stop(
    entries: Seq<BlockEntry>,
    names: Seq<Seq<char>>,
    nbd: Seq<char>,
    total: u64,
    n: nat,
)
    requires
        n <= names.len(),
        candidates_upto(entries, names, nbd, total, n) is Err,
    ensures
        candidates_upto(entries, names, nbd, total, names.len()) == candidates_upto(
            entries,
            names,
            nbd,
            total,
            n,
        ),
    decreases names.len() - n,
{
    if n < names.len() {
        lemma_candidates_stop(entries, names, nbd, total, n + 1);
    }
}

fn extent(entries: &Vec<BlockEntry>, entry: &BlockEntry, nbd: &str, total: u64) -> (r: Result<
    (u64, u64),
    ProbeError,
>)
    ensures
        crate::sysfs::agrees(r, extent_of(entries@, *entry, nbd@, total)),
{
    if same(entry.name.as_str(), nbd) {
        return Ok((0, total));
    }
    let own = match is_nbd_partition(entries, entry.name.as_str(), nbd) {
        Ok(own) => own,
        Err(e) => return Err(e),
    };
    let child = match &entry.parent {
        Some(parent) => same(parent.as_str(), nbd),
        None => false,
    };
    if !own || !child {
        return Err(invalid("NBD partition is not a child of the recorded kernel device"));
    }
    let start: u64 = match sector_count(&entry.start) {
        Ok(n) => n,
        Err(e) => return Err(e),
    };
    let sectors: u64 = match sector_count(&entry.size) {
        Ok(n) => n,
        Err(e) => return Err(e),
    };
    if sectors == 0 || start > u64::MAX - sectors || start + sectors > total {
        return Err(invalid("NBD partition lies outside the recorded device"));
    }
    Ok((start, sectors))
}

fn has_number(devices: &Vec<Device>, number: (u32, u32)) -> (r: bool)
    ensures
        r == exists|i: int|
            0 <= i < candidates(devices@).len() && (#[trigger] candidates(devices@)[i]).number
                == number,
{
    let ghost all = candidates(devices@);
    let mut i: usize = 0;
    while i < devices.len()
        invariant
            i <= devices.len(),
            all == candidates(devices@),
            forall|k: int| 0 <= k < i ==> (#[trigger] all[k]).number != number,
        decreases devices.len() - i,
    {
        assert(all[i as int] == devices@[i as int]@);
        if devices[i].number.0 == number.0 && devices[i].number.1 == number.1 {
            assert(all[i as int].number == number);
            return true;
        }
        i += 1;
    }
    false
}

fn candidate(
    entries: &Vec<BlockEntry>,
    name: &str,
    nbd: &str,
    total: u64,
    before: &Vec<Device>,
) -> (r: Result<Device, ProbeError>)
    ensures
        match r {
            Ok(d) => candidate_of(entries@, name@, nbd@, total, candidates(before@)) == Ok::<
                Candidate,
                crate::sysfs::Complaint,
            >(d@),
            Err(e) => candidate_of(entries@, name@, nbd@, total, candidates(before@)) == Err::<
                Candidate,
                crate::sysfs::Complaint,
            >(e@),
        },
{
    let entry = match find_entry(entries, name) {
        Some(entry) => entry,
        None => return Err(ProbeError::Unreadable),
    };
    let (start, sectors) = match extent(entries, entry, nbd, total) {
        Ok(p) => p,
        Err(e) => return Err(e),
    };
    match &entry.holders {
        None => return Err(ProbeError::Unreadable),
        Some(holders) => {
            if holders.len() > 0 {
                return Err(invalid("LVM candidate already has a kernel holder"));
            }
        },
    }
    let number = match number_of_entry(entry) {
        Ok(number) => number,
        Err(e) => return Err(e),
    };
    if has_number(before, number) {
        return Err(invalid("LVM candidate device node does not match kernel identity"));
    }
    match entry.node {
        None => Err(ProbeError::Unreadable),
        Some(node) => {
            if node.0 != number.0 || node.1 != number.1 {
                return Err(invalid("LVM candidate device node does not match kernel identity"));
            }
            Ok(Device { path: join2("/dev/", name), number, start, sectors })
        },
    }
}

/// The NBD device and its partitions, in the order of their names.
pub fn discover_at(tree: &BlockTree, device: &str) -> (r: Result<Vec<Device>, ProbeError>)
    ensures
        match r {
            Ok(devices) => discovered(tree.entries@, tree.odd_names, device@) == Ok::<
                Seq<Candidate>,
                crate::sysfs::Complaint,
            >(candidates(devices@)),
            Err(e) => discovered(tree.entries@, tree.odd_names, device@) == Err::<
                Seq<Candidate>,
                crate::sysfs::Complaint,
            >(e@),
        },
{
    if nbd_index(device).is_none() {
        return Err(invalid("invalid NBD device for LVM preflight"));
    }
    proof {
        reveal_strlit("/dev/");
        reveal_strlit("/dev/nbd");
        assert(crate::text::starts_with(device@, "/dev/nbd"@));
        assert(device@.subrange(0, 8) == "/dev/nbd"@);
        assert forall|i: int| 0 <= i < 5 implies device@[i] == "/dev/"@[i] by {
            assert(device@.subrange(0, 8)[i] == "/dev/nbd"@[i]);
        }
        assert(device@.subrange(0, 5) =~= "/dev/"@);
    }
    let nbd = match strip_prefix(device, "/dev/") {
        Some(nbd) => nbd,
        None => return Err(invalid("invalid NBD device for LVM preflight")),
    };
    assert(nbd@ =~= device@.skip(5));
    let entries = &tree.entries;
    let root = match find_entry(entries, nbd) {
        Some(root) => root,
        None => return Err(ProbeError::Unreadable),
    };
    let total: u64 = match sector_count(&root.size) {
        Ok(total) => total,
        Err(e) => return Err(e),
    };
    if total == 0 {
        return Err(invalid("NBD geometry is empty"));
    }
    if tree.odd_names {
        return Err(invalid("invalid block name"));
    }
    let prefix = join2(nbd, "p");
    let mut names: Vec<String> = Vec::new();
    names.push(nbd.to_owned());
    let mut i: usize = 0;
    assert(crate::text::strings(names@) =~= seq![nbd@] + partition_names(entries@, nbd@, 0));
    while i < entries.len()
        invariant
            i <= entries.len(),
            entries@ == tree.entries@,
            prefix@ == nbd@ + "p"@,
            crate::text::strings(names@) == seq![nbd@] + partition_names(
                entries@,
                nbd@,
                i as nat,
            ),
        decreases entries.len() - i,
    {
        let ghost before = names@;
        if has_prefix(entries[i].name.as_str(), prefix.as_str()) {
            names.push(entries[i].name.clone());
            assert(crate::text::strings(names@) =~= crate::text::strings(before).push(
                entries@[i as int].name@,
            ));
            assert(crate::text::strings(names@) =~= seq![nbd@] + partition_names(
                entries@,
                nbd@,
                (i + 1) as nat,
            ));
        }
        i += 1;
    }
    assert(names@.len() == crate::text::strings(names@).len());
    if names.len() > MAX_DEVICES {
        return Err(invalid("too many NBD partitions for LVM preflight"));
    }
    let ordered = sort(&names);
    let ghost texts = crate::text::strings(ordered@);
    let mut devices: Vec<Device> = Vec::new();
    let mut j: usize = 0;
    assert(candidates(devices@) =~= Seq::<Candidate>::empty());
    while j < ordered.len()
        invariant
            j <= ordered.len(),
            texts == crate::text::strings(ordered@),
            candidates_upto(entries@, texts, nbd@, total, j as nat) == Ok::<
                Seq<Candidate>,
                crate::sysfs::Complaint,
            >(candidates(devices@)),
            discovered(tree.entries@, tree.odd_names, device@) == candidates_upto(
                entries@,
                texts,
                nbd@,
                total,
                texts.len(),
            ),
        decreases ordered.len() - j,
    {
        assert(texts[j as int] == ordered@[j as int]@);
        let ghost before = devices@;
        match candidate(entries, ordered[j].as_str(), nbd, total, &devices) {
            Ok(found) => {
                devices.push(found);
                assert(candidates(devices@) =~= candidates(before).push(found@));
            },
            Err(e) => {
                proof {
                    lemma_candidates_stop(entries@, texts, nbd@, total, (j + 1) as nat);
                }
                return Err(e);
            },
        }
        j += 1;
    }
    Ok(devices)
}

// ---------- labels ----------

/// The fields that the first `n` lines of a label report set.
pub open spec fn label_fields(lines: Seq<Seq<char>>, n: nat) -> Result<
    Map<Seq<char>, Seq<char>>,
    crate::sysfs::Complaint,
>
    decreases n,
{
    if n == 0 {
        Ok(Map::empty())
    } else {
        match label_fields(lines, (n - 1) as nat) {
            Err(c) => Err(c),
            Ok(before) => match crate::text::cut(lines[n - 1], "="@) {
                None => Err(crate::sysfs::Complaint::Invalid("invalid block label field"@)),
                Some((key, value)) => if before.contains_key(key) {
                    Err(crate::sysfs::Complaint::Invalid("duplicate block label field"@))
                } else {
                    Ok(before.insert(key, value))
                },
            },
        }
    }
}

/// What the fields of a label report say: the identifier of a physical volume,
/// or that there is something else.
pub open spec fn label_said(fields: Map<Seq<char>, Seq<char>>) -> Result<
    Option<Seq<char>>,
    crate::sysfs::Complaint,
> {
    if fields.contains_key("TYPE"@) && fields["TYPE"@] == "LVM2_member"@ {
        if fields.contains_key("PTTYPE"@) {
            Err(crate::sysfs::Complaint::Invalid("PV label overlaps a partition table"@))
        } else if !fields.contains_key("UUID"@) {
            Err(crate::sysfs::Complaint::Invalid("PV label has no UUID"@))
        } else if !lvm_uuid(fields["UUID"@]) {
            Err(crate::sysfs::Complaint::Invalid("invalid LVM UUID"@))
        } else {
            Ok(Some(fields["UUID"@]))
        }
    } else if fields.contains_key("TYPE"@) && fields["TYPE"@].len() > 0 {
        Ok(None)
    } else if !fields.contains_key("TYPE"@) && fields.contains_key("PTTYPE"@)
        && fields["PTTYPE"@].len() > 0 {
        Ok(None)
    } else {
        Err(
            crate::sysfs::Complaint::Invalid(
                "LVM candidate has no unambiguous recognized label"@,
            ),
        )
    }
}

/// What a label report says.
pub open spec fn label_of(text: Seq<char>) -> Result<Option<Seq<char>>, crate::sysfs::Complaint> {
    let lines = crate::text::lines(text);
    match label_fields(lines, lines.len()) {
        Err(c) => Err(c),
        Ok(fields) => label_said(fields),
    }
}

/// The outcome of a label probe says what the model says.
pub open spec fn tells(
    r: Result<Option<String>, ProbeError>,
    s: Result<Option<Seq<char>>, crate::sysfs::Complaint>,
) -> bool {
    match r {
        Ok(o) => s == Ok::<Option<Seq<char>>, crate::sysfs::Complaint>(crate::text::optional(o)),
        Err(e) => s == Err::<Option<Seq<char>>, crate::sysfs::Complaint>(e@),
    }
}

proof fn lemma_fields_stop(lines: Seq<Seq<char>>, n: nat)
    requires
        n <= lines.len(),
        label_fields(lines, n) is Err,
    ensures
        label_fields(lines, lines.len()) == label_fields(lines, n),
    decreases lines.len() - n,
{
    if n < lines.len() {
        lemma_fields_stop(lines, n + 1);
    }
}

/// Read the fields of a report of `KEY=VALUE` lines.
pub(crate) fn read_fields(text: &str) -> (r: Result<Table<String>, ProbeError>)
    ensures
        ({
            let lines = crate::text::lines(text@);
            match r {
                Ok(table) => label_fields(lines, lines.len()) == Ok::<
                    Map<Seq<char>, Seq<char>>,
                    crate::sysfs::Complaint,
                >(crate::table::entries(table@)),
                Err(e) => label_fields(lines, lines.len()) == Err::<
                    Map<Seq<char>, Seq<char>>,
                    crate::sysfs::Complaint,
                >(e@),
            }
        }),
{
    let lines = split_lines(text);
    let ghost texts = crate::text::lines(text@);
    let mut table: Table<String> = Table::new();
    let mut i: usize = 0;
    assert(crate::table::entries(table@) =~= Map::<Seq<char>, Seq<char>>::empty());
    while i < lines.len()
        invariant
            i <= lines.len(),
            texts == crate::text::texts(lines@),
            texts == crate::text::lines(text@),
            label_fields(texts, i as nat) == Ok::<
                Map<Seq<char>, Seq<char>>,
                crate::sysfs::Complaint,
            >(crate::table::entries(table@)),
        decreases lines.len() - i,
    {
        assert(texts[i as int] == lines@[i as int]@);
        let (key, value) = match split_once(lines[i], "=") {
            Some(p) => p,
            None => {
                assert(crate::text::cut(texts[i as int], "="@) is None);
                proof {
                    lemma_fields_stop(texts, (i + 1) as nat);
                }
                return Err(invalid("invalid block label field"));
            },
        };
        assert(crate::text::cut(texts[i as int], "="@) == Some((key@, value@)));
        if table.contains_key(key) {
            proof {
                lemma_fields_stop(texts, (i + 1) as nat);
            }
            return Err(invalid("duplicate block label field"));
        }
        let owned = value.to_owned();
        proof {
            crate::table::lemma_entries_insert(table@, key@, owned);
        }
        table.insert(key, owned);
        i += 1;
    }
    Ok(table)
}

/// What the text of a label report says.
pub fn probe_label_text(text: &str) -> (r: Result<Option<String>, ProbeError>)
    ensures
        tells(r, label_of(text@)),
{
    let fields = match read_fields(text) {
        Ok(fields) => fields,
        Err(e) => return Err(e),
    };
    let ghost map = crate::table::entries(fields@);
    match fields.get("TYPE") {
        Some(kind) => {
            assert(map.contains_key("TYPE"@) && map["TYPE"@] == kind@);
            if same(kind.as_str(), "LVM2_member") {
                if fields.contains_key("PTTYPE") {
                    return Err(invalid("PV label overlaps a partition table"));
                }
                match fields.get("UUID") {
                    Some(id) => {
                        assert(map.contains_key("UUID"@) && map["UUID"@] == id@);
                        if is_lvm_uuid(id.as_str()) {
                            Ok(Some(id.clone()))
                        } else {
                            Err(invalid("invalid LVM UUID"))
                        }
                    },
                    None => Err(invalid("PV label has no UUID")),
                }
            } else if !kind.as_str().is_empty() {
                Ok(None)
            } else {
                Err(invalid("LVM candidate has no unambiguous recognized label"))
            }
        },
        None => match fields.get("PTTYPE") {
            Some(kind) => {
                assert(map.contains_key("PTTYPE"@) && map["PTTYPE"@] == kind@);
                if !kind.as_str().is_empty() {
                    Ok(None)
                } else {
                    Err(invalid("LVM candidate has no unambiguous recognized label"))
                }
            },
            None => Err(invalid("LVM candidate has no unambiguous recognized label")),
        },
    }
}

/// What a label probe says: whether it succeeded, whether it kept its error
/// stream silent, and what it wrote. A failed probe is never taken for a device
/// without a label.
pub fn probe_label(success: bool, silent: bool, stdout: Vec<u8>) -> (r: Result<
    Option<String>,
    ProbeError,
>)
    ensures
        tells(
            r,
            if !success || !silent || stdout@.len() > MAX_REPORT {
                Err(
                    crate::sysfs::Complaint::Invalid(
                        "LVM candidate label probe failed or was ambiguous"@,
                    ),
                )
            } else if !vstd::utf8::valid_utf8(stdout@) {
                Err(crate::sysfs::Complaint::Invalid("invalid block label report"@))
            } else {
                label_of(vstd::utf8::decode_utf8(stdout@))
            },
        ),
{
    if !success || !silent || stdout.len() > MAX_REPORT {
        return Err(invalid("LVM candidate label probe failed or was ambiguous"));
    }
    match from_utf8(stdout) {
        Some(text) => {
            proof {
                vstd::utf8::encode_utf8_decode_utf8(text@);
            }
            probe_label_text(text.as_str())
        },
        None => Err(invalid("invalid block label report")),
    }
}

/// The labels of the first `n` devices, by path. No label may be borne twice.
pub open spec fn labels_upto(
    devices: Seq<Candidate>,
    probed: Seq<Option<Seq<char>>>,
    n: nat,
) -> Result<Map<Seq<char>, Seq<char>>, crate::sysfs::Complaint>
    decreases n,
{
    if n == 0 {
        Ok(Map::empty())
    } else {
        match labels_upto(devices, probed, (n - 1) as nat) {
            Err(c) => Err(c),
            Ok(before) => match probed[n - 1] {
                None => Ok(before),
                Some(id) => if exists|j: int|
                    0 <= j < n - 1 && #[trigger] probed[j] == Some(id) {
                    Err(
                        crate::sysfs::Complaint::Invalid(
                            "duplicate PV labels on NBD candidates"@,
                        ),
                    )
                } else {
                    Ok(before.insert(devices[n - 1].path, id))
                },
            },
        }
    }
}

proof fn lemma_labels_stop(devices: Seq<Candidate>, probed: Seq<Option<Seq<char>>>, n: nat)
    requires
        n <= devices.len(),
        labels_upto(devices, probed, n) is Err,
    ensures
        labels_upto(devices, probed, devices.len()) == labels_upto(devices, probed, n),
    decreases devices.len() - n,
{
    if n < devices.len() {
        lemma_labels_stop(devices, probed, n + 1);
    }
}

/// The optional texts of a list.
pub open spec fn optionals(v: Seq<Option<String>>) -> Seq<Option<Seq<char>>> {
    v.map_values(|o: Option<String>| crate::text::optional(o))
}

/// Gather the labels that were read from each device.
pub fn collect_labels(devices: &Vec<Device>, probed: &Vec<Option<String>>) -> (r: Result<
    Table<String>,
    ProbeError,
>)
    requires
        probed@.len() == devices@.len(),
    ensures
        match r {
            Ok(table) => labels_upto(candidates(devices@), optionals(probed@), devices@.len())
                == Ok::<Map<Seq<char>, Seq<char>>, crate::sysfs::Complaint>(
                crate::table::entries(table@),
            ),
            Err(e) => labels_upto(candidates(devices@), optionals(probed@), devices@.len())
                == Err::<Map<Seq<char>, Seq<char>>, crate::sysfs::Complaint>(e@),
        },
{
    let ghost all = candidates(devices@);
    let ghost said = optionals(probed@);
    let mut table: Table<String> = Table::new();
    let mut i: usize = 0;
    assert(crate::table::entries(table@) =~= Map::<Seq<char>, Seq<char>>::empty());
    while i < devices.len()
        invariant
            i <= devices.len(),
            probed@.len() == devices@.len(),
            all == candidates(devices@),
            said == optionals(probed@),
            labels_upto(all, said, i as nat) == Ok::<
                Map<Seq<char>, Seq<char>>,
                crate::sysfs::Complaint,
            >(crate::table::entries(table@)),
        decreases devices.len() - i,
    {
        assert(all[i as int] == devices@[i as int]@);
        assert(said[i as int] == crate::text::optional(probed@[i as int]));
        match &probed[i] {
            Some(id) => {
                let mut j: usize = 0;
                while j < i
                    invariant
                        j <= i,
                        i < devices.len(),
                        probed@.len() == devices@.len(),
                        all == candidates(devices@),
                        said == optionals(probed@),
                        said[i as int] == Some(id@),
                        labels_upto(all, said, i as nat) is Ok,
                        forall|k: int| 0 <= k < j ==> #[trigger] said[k] != Some(id@),
                    decreases i - j,
                {
                    assert(said[j as int] == crate::text::optional(probed@[j as int]));
                    match &probed[j] {
                        Some(other) => {
                            if same(other.as_str(), id.as_str()) {
                                proof {
                                    lemma_labels_stop(all, said, (i + 1) as nat);
                                }
                                return Err(invalid("duplicate PV labels on NBD candidates"));
                            }
                        },
                        None => {},
                    }
                    j += 1;
                }
                let owned = id.clone();
                proof {
                    crate::table::lemma_entries_insert(table@, devices@[i as int].path@, owned);
                }
                table.insert(devices[i].path.as_str(), owned);
            },
            None => {},
        }
        i += 1;
    }
    Ok(table)
}

// ---------- commands ----------

/// The paths of the devices.
pub open spec fn paths(devices: Seq<Candidate>) -> Seq<Seq<char>> {
    devices.map_values(|d: Candidate| d.path)
}

/// The arguments of the `blkid` probe of a candidate's label, for the device
/// that `path` leads to.
pub fn label_arguments(path: &str) -> (r: Vec<String>)
    ensures
        crate::text::strings(r@) == seq![
            "--probe"@,
            "--output"@,
            "export"@,
            "--match-tag"@,
            "TYPE"@,
            "--match-tag"@,
            "UUID"@,
            "--match-tag"@,
            "PTTYPE"@,
            path@,
        ],
{
    let r = owned(
        &[
            "--probe",
            "--output",
            "export",
            "--match-tag",
            "TYPE",
            "--match-tag",
            "UUID",
            "--match-tag",
            "PTTYPE",
            path,
        ],
    );
    assert(crate::text::strings(r@) =~= seq![
        "--probe"@,
        "--output"@,
        "export"@,
        "--match-tag"@,
        "TYPE"@,
        "--match-tag"@,
        "UUID"@,
        "--match-tag"@,
        "PTTYPE"@,
        path@,
    ]);
    r
}

/// Whether what was opened at a candidate's path is the candidate: a block
/// device with the candidate's number.
pub fn check_label_device(device: &Device, is_block: bool, number: (u32, u32)) -> (r: Result<
    (),
    ProbeError,
>)
    ensures
        crate::sysfs::passes(
            r,
            if is_block && number == device.number {
                None
            } else {
                Some("PV label probe device was replaced"@)
            },
        ),
{
    if is_block && number.0 == device.number.0 && number.1 == device.number.1 {
        Ok(())
    } else {
        Err(invalid("PV label probe device was replaced"))
    }
}

/// The paths of the devices, with commas between them.
pub fn device_list(devices: &Vec<Device>) -> (r: String)
    ensures
        r@ == crate::text::joined(paths(candidates(devices@)), ","@),
{
    let mut list: Vec<String> = Vec::new();
    let mut i: usize = 0;
    while i < devices.len()
        invariant
            i <= devices.len(),
            list.len() == i,
            forall|k: int| 0 <= k < i ==> #[trigger] list@[k]@ == devices@[k].path@,
        decreases devices.len() - i,
    {
        list.push(devices[i].path.clone());
        i += 1;
    }
    assert(crate::text::strings(list@) =~= paths(candidates(devices@)));
    join(&list, ",")
}

/// The words as strings of their own.
pub(crate) fn owned(words: &[&str]) -> (r: Vec<String>)
    ensures
        crate::text::strings(r@) == crate::text::texts(words@),
{
    let mut out: Vec<String> = Vec::new();
    let mut i: usize = 0;
    while i < words.len()
        invariant
            i <= words.len(),
            out.len() == i,
            forall|k: int| 0 <= k < i ==> #[trigger] out@[k]@ == words@[k]@,
        decreases words.len() - i,
    {
        out.push(words[i].to_owned());
        i += 1;
    }
    assert(crate::text::strings(out@) =~= crate::text::texts(words@));
    out
}

/// The arguments of the read-only `lvm` report on exactly these devices.
pub fn report_arguments(devices: &Vec<Device>) -> (r: Vec<String>)
    ensures
        crate::text::strings(r@) == seq![
            "fullreport"@,
            "--readonly"@,
            "--all"@,
            "--foreign"@,
            "--shared"@,
            "--reportformat"@,
            "json"@,
            "--binary"@,
            "--devices"@,
            crate::text::joined(paths(candidates(devices@)), ","@),
            "--config"@,
            "report { list_item_separator=\",\" }"@,
            "--configreport"@,
            "vg"@,
            "--options"@,
            "vg_name,vg_uuid,vg_seqno,pv_count,vg_missing_pv_count,vg_partial,vg_exported,vg_systemid,vg_lock_type"@,
            "--configreport"@,
            "pv"@,
            "--options"@,
            "pv_name,pv_uuid,vg_uuid,pv_missing,pv_duplicate"@,
            "--configreport"@,
            "lv"@,
            "--options"@,
            "lv_name,lv_uuid,vg_uuid,lv_layout"@,
            "--configreport"@,
            "pvseg"@,
            "--options"@,
            "pv_uuid"@,
            "--configreport"@,
            "seg"@,
            "--options"@,
            "lv_uuid"@,
        ],
{
    let list = device_list(devices);
    let r = owned(
        &[
            "fullreport",
            "--readonly",
            "--all",
            "--foreign",
            "--shared",
            "--reportformat",
            "json",
            "--binary",
            "--devices",
            list.as_str(),
            "--config",
            "report { list_item_separator=\",\" }",
            "--configreport",
            "vg",
            "--options",
            "vg_name,vg_uuid,vg_seqno,pv_count,vg_missing_pv_count,vg_partial,vg_exported,vg_systemid,vg_lock_type",
            "--configreport",
            "pv",
            "--options",
            "pv_name,pv_uuid,vg_uuid,pv_missing,pv_duplicate",
            "--configreport",
            "lv",
            "--options",
            "lv_name,lv_uuid,vg_uuid,lv_layout",
            "--configreport",
            "pvseg",
            "--options",
            "pv_uuid",
            "--configreport",
            "seg",
            "--options",
            "lv_uuid",
        ],
    );
    assert(crate::text::strings(r@) =~= seq![
        "fullreport"@,
        "--readonly"@,
        "--all"@,
        "--foreign"@,
        "--shared"@,
        "--reportformat"@,
        "json"@,
        "--binary"@,
        "--devices"@,
        list@,
        "--config"@,
        "report { list_item_separator=\",\" }"@,
        "--configreport"@,
        "vg"@,
        "--options"@,
        "vg_name,vg_uuid,vg_seqno,pv_count,vg_missing_pv_count,vg_partial,vg_exported,vg_systemid,vg_lock_type"@,
        "--configreport"@,
        "pv"@,
        "--options"@,
        "pv_name,pv_uuid,vg_uuid,pv_missing,pv_duplicate"@,
        "--configreport"@,
        "lv"@,
        "--options"@,
        "lv_name,lv_uuid,vg_uuid,lv_layout"@,
        "--configreport"@,
        "pvseg"@,
        "--options"@,
        "pv_uuid"@,
        "--configreport"@,
        "seg"@,
        "--options"@,
        "lv_uuid"@,
    ]);
    r
}

/// The arguments of the `vgchange` that activates exactly the verified group on
/// exactly its devices.
pub open spec fn activation_words(verified: Verified) -> Seq<Seq<char>> {
    seq![
        "--activate"@,
        "y"@,
        "--activationmode"@,
        "complete"@,
        "--devices"@,
        crate::text::joined(paths(verified.devices), ","@),
        "--select"@,
        "vg_uuid="@ + verified.vg_uuid,
        "--config"@,
        "devices { allow_changes_with_duplicate_pvs=0 }"@,
    ]
}

/// The arguments of the `vgchange` that deactivates it.
pub open spec fn deactivation_words(verified: Verified) -> Seq<Seq<char>> {
    seq![
        "--activate"@,
        "n"@,
        "--devices"@,
        crate::text::joined(paths(verified.devices), ","@),
        "--select"@,
        "vg_uuid="@ + verified.vg_uuid,
        "--config"@,
        "devices { allow_changes_with_duplicate_pvs=0 }"@,
    ]
}

/// The arguments of the scoped activation.
pub fn activation_arguments(verified: &VerifiedLvm) -> (r: Vec<String>)
    ensures
        crate::text::strings(r@) == activation_words(verified@),
{
    let list = device_list(&verified.devices);
    let select = join2("vg_uuid=", verified.vg_uuid.as_str());
    let r = owned(
        &[
            "--activate",
            "y",
            "--activationmode",
            "complete",
            "--devices",
            list.as_str(),
            "--select",
            select.as_str(),
            "--config",
            "devices { allow_changes_with_duplicate_pvs=0 }",
        ],
    );
    assert(crate::text::strings(r@) =~= activation_words(verified@));
    r
}

/// The arguments of the scoped deactivation.
pub fn deactivation_arguments(verified: &VerifiedLvm) -> (r: Vec<String>)
    ensures
        crate::text::strings(r@) == deactivation_words(verified@),
{
    let list = device_list(&verified.devices);
    let select = join2("vg_uuid=", verified.vg_uuid.as_str());
    let r = owned(
        &[
            "--activate",
            "n",
            "--devices",
            list.as_str(),
            "--select",
            select.as_str(),
            "--config",
            "devices { allow_changes_with_duplicate_pvs=0 }",
        ],
    );
    assert(crate::text::strings(r@) =~= deactivation_words(verified@));
    r
}

// ---------- the report ----------

/// A volume group as the report gives it.
#[derive(Debug)]
pub struct Vg {
    pub vg_name: String,
    pub vg_uuid: String,
    pub vg_seqno: String,
    pub pv_count: String,
    pub vg_missing_pv_count: String,
    pub vg_partial: String,
    pub vg_exported: String,
    pub vg_systemid: String,
    pub vg_lock_type: String,
}

/// A physical volume as the report gives it, with the number of the device
/// that its name leads to.
#[derive(Debug)]
pub struct Pv {
    pub pv_name: String,
    pub pv_uuid: String,
    pub vg_uuid: String,
    pub pv_missing: String,
    pub pv_duplicate: String,
    pub number: Option<(u32, u32)>,
}

/// A logical volume as the report gives it.
#[derive(Debug)]
pub struct Lv {
    pub lv_name: String,
    pub lv_uuid: String,
    pub vg_uuid: String,
    pub lv_layout: String,
}

/// One group of the report.
#[derive(Debug)]
pub struct Group {
    pub vg: Vec<Vg>,
    pub pv: Vec<Pv>,
    pub lv: Vec<Lv>,
}

/// The devices among the first `n` that carry a label.
pub open spec fn labelled(
    devices: Seq<Candidate>,
    labels: Map<Seq<char>, Seq<char>>,
    n: nat,
) -> Seq<Candidate>
    decreases n,
{
    if n == 0 {
        Seq::empty()
    } else if labels.contains_key(devices[n - 1].path) {
        labelled(devices, labels, (n - 1) as nat).push(devices[n - 1])
    } else {
        labelled(devices, labels, (n - 1) as nat)
    }
}

/// The first complaint about the device at `i` and one at or after `j`.
pub open spec fn pair_complaint(list: Seq<Candidate>, i: int, j: int) -> Option<Seq<char>>
    decreases list.len() - j,
{
    if j < 0 || j >= list.len() {
        None
    } else if list[j].start + list[j].sectors > u64::MAX {
        Some("PV range overflow"@)
    } else if list[i].start < list[j].start + list[j].sectors && list[j].start < list[i].start
        + list[i].sectors {
        Some("independent PV labels overlap underlying NBD sectors"@)
    } else {
        pair_complaint(list, i, j + 1)
    }
}

/// The first complaint about the ranges of the labelled devices from `i` on: no
/// two of them may share a sector.
pub open spec fn ranges_complaint(list: Seq<Candidate>, i: int) -> Option<Seq<char>>
    decreases list.len() - i,
{
    if i < 0 || i >= list.len() {
        None
    } else if list[i].start + list[i].sectors > u64::MAX {
        Some("PV range overflow"@)
    } else if list[i].sectors == 0 {
        Some("PV range is empty"@)
    } else {
        match pair_complaint(list, i, i + 1) {
            Some(m) => Some(m),
            None => ranges_complaint(list, i + 1),
        }
    }
}

/// The complaint about the ranges of the labelled devices.
fn check_ranges(devices: &Vec<Device>, labels: &Table<String>) -> (r: Option<&'static str>)
    ensures
        crate::sysfs::says(
            r,
            ranges_complaint(
                labelled(
                    candidates(devices@),
                    crate::table::entries(labels@),
                    devices@.len(),
                ),
                0,
            ),
        ),
{
    let ghost all = candidates(devices@);
    let ghost map = crate::table::entries(labels@);
    let mut list: Vec<Device> = Vec::new();
    let mut i: usize = 0;
    assert(candidates(list@) =~= Seq::<Candidate>::empty());
    while i < devices.len()
        invariant
            i <= devices.len(),
            all == candidates(devices@),
            map == crate::table::entries(labels@),
            candidates(list@) == labelled(all, map, i as nat),
        decreases devices.len() - i,
    {
        assert(all[i as int] == devices@[i as int]@);
        let ghost before = list@;
        if labels.contains_key(devices[i].path.as_str()) {
            list.push(devices[i].clone());
            assert(candidates(list@) =~= candidates(before).push(all[i as int]));
        }
        i += 1;
    }
    let ghost on = candidates(list@);
    let mut a: usize = 0;
    while a < list.len()
        invariant
            a <= list.len(),
            on == candidates(list@),
            on == labelled(all, map, all.len()),
            all == candidates(devices@),
            map == crate::table::entries(labels@),
            ranges_complaint(on, 0) == ranges_complaint(on, a as int),
        decreases list.len() - a,
    {
        assert(on[a as int] == list@[a as int]@);
        let first = &list[a];
        if first.start > u64::MAX - first.sectors {
            return Some("PV range overflow");
        }
        if first.sectors == 0 {
            return Some("PV range is empty");
        }
        let end: u64 = first.start + first.sectors;
        let mut b: usize = a + 1;
        while b < list.len()
            invariant
                a < b <= list.len(),
                on == candidates(list@),
                on == labelled(all, map, all.len()),
                all == candidates(devices@),
                map == crate::table::entries(labels@),
                first@ == on[a as int],
                end == on[a as int].start + on[a as int].sectors,
                on[a as int].sectors != 0,
                ranges_complaint(on, 0) == ranges_complaint(on, a as int),
                pair_complaint(on, a as int, a + 1) == pair_complaint(on, a as int, b as int),
            decreases list.len() - b,
        {
            assert(on[b as int] == list@[b as int]@);
            let second = &list[b];
            if second.start > u64::MAX - second.sectors {
                return Some("PV range overflow");
            }
            if first.start < second.start + second.sectors && second.start < end {
                return Some("independent PV labels overlap underlying NBD sectors");
            }
            b += 1;
        }
        a += 1;
    }
    None
}

/// The first device at or after `i` with that number.
pub open spec fn device_numbered(devices: Seq<Candidate>, number: (u32, u32), i: int) -> Option<
    Candidate,
>
    decreases devices.len() - i,
{
    if i < 0 || i >= devices.len() {
        None
    } else if devices[i].number == number {
        Some(devices[i])
    } else {
        device_numbered(devices, number, i + 1)
    }
}

fn find_numbered<'a>(devices: &'a Vec<Device>, number: (u32, u32)) -> (r: Option<&'a Device>)
    ensures
        match r {
            Some(d) => device_numbered(candidates(devices@), number, 0) == Some(d@),
            None => device_numbered(candidates(devices@), number, 0) is None,
        },
{
    let ghost all = candidates(devices@);
    let mut i: usize = 0;
    while i < devices.len()
        invariant
            i <= devices.len(),
            all == candidates(devices@),
            device_numbered(all, number, 0) == device_numbered(all, number, i as int),
        decreases devices.len() - i,
    {
        assert(all[i as int] == devices@[i as int]@);
        if devices[i].number.0 == number.0 && devices[i].number.1 == number.1 {
            return Some(&devices[i]);
        }
        i += 1;
    }
    None
}

/// Some key has that text.
pub open spec fn has_text(map: Map<Seq<char>, Seq<char>>, text: Seq<char>) -> bool {
    exists|k: Seq<char>| #[trigger] map.contains_key(k) && map[k] == text
}

/// What a physical volume adds to the labels that the report accounts for.
pub open spec fn with_pv(
    devices: Seq<Candidate>,
    labels: Map<Seq<char>, Seq<char>>,
    vg_id: Seq<char>,
    pv: Pv,
    seen: Map<Seq<char>, Seq<char>>,
) -> Result<Map<Seq<char>, Seq<char>>, crate::sysfs::Complaint> {
    if !lvm_uuid(pv.pv_uuid@) {
        Err(crate::sysfs::Complaint::Invalid("invalid LVM UUID"@))
    } else if !crate::text::starts_with(pv.pv_name@, "/dev/"@) {
        Err(crate::sysfs::Complaint::Invalid("invalid LVM PV device path"@))
    } else {
        match pv.number {
            None => Err(crate::sysfs::Complaint::Unreadable),
            Some(number) => match device_numbered(devices, number, 0) {
                None => Err(
                    crate::sysfs::Complaint::Invalid(
                        "LVM PV is outside the verified NBD candidates"@,
                    ),
                ),
                Some(device) => if pv.vg_uuid@ != vg_id || pv.pv_missing@ != "0"@
                    || pv.pv_duplicate@ != "0"@ || !(labels.contains_key(device.path)
                    && labels[device.path] == pv.pv_uuid@) || has_text(seen, pv.pv_uuid@)
                    || seen.contains_key(device.path) {
                    Err(
                        crate::sysfs::Complaint::Invalid(
                            "LVM PV membership does not match unique verified NBD labels"@,
                        ),
                    )
                } else {
                    Ok(seen.insert(device.path, pv.pv_uuid@))
                },
            },
        }
    }
}

/// The labels that the first `n` physical volumes account for.
pub open spec fn pvs_upto(
    devices: Seq<Candidate>,
    labels: Map<Seq<char>, Seq<char>>,
    vg_id: Seq<char>,
    pvs: Seq<Pv>,
    n: nat,
) -> Result<Map<Seq<char>, Seq<char>>, crate::sysfs::Complaint>
    decreases n,
{
    if n == 0 {
        Ok(Map::empty())
    } else {
        match pvs_upto(devices, labels, vg_id, pvs, (n - 1) as nat) {
            Err(c) => Err(c),
            Ok(seen) => with_pv(devices, labels, vg_id, pvs[n - 1], seen),
        }
    }
}

proof fn lemma_pvs_stop(
    devices: Seq<Candidate>,
    labels: Map<Seq<char>, Seq<char>>,
    vg_id: Seq<char>,
    pvs: Seq<Pv>,
    n: nat,
)
    requires
        n <= pvs.len(),
        pvs_upto(devices, labels, vg_id, pvs, n) is Err,
    ensures
        pvs_upto(devices, labels, vg_id, pvs, pvs.len()) == pvs_upto(
            devices,
            labels,
            vg_id,
            pvs,
            n,
        ),
    decreases pvs.len() - n,
{
    if n < pvs.len() {
        lemma_pvs_stop(devices, labels, vg_id, pvs, n + 1);
    }
}

fn add_pv(
    devices: &Vec<Device>,
    labels: &Table<String>,
    vg_id: &str,
    pv: &Pv,
    seen: &mut Table<String>,
) -> (r: Result<(), ProbeError>)
    ensures
        ({
            let said = with_pv(
                candidates(devices@),
                crate::table::entries(labels@),
                vg_id@,
                *pv,
                crate::table::entries(old(seen)@),
            );
            match r {
                Ok(()) => said == Ok::<Map<Seq<char>, Seq<char>>, crate::sysfs::Complaint>(
                    crate::table::entries(final(seen)@),
                ),
                Err(e) => said == Err::<Map<Seq<char>, Seq<char>>, crate::sysfs::Complaint>(e@),
            }
        }),
{
    let ghost had = crate::table::entries(seen@);
    let id = pv.pv_uuid.as_str();
    if !is_lvm_uuid(id) {
        return Err(invalid("invalid LVM UUID"));
    }
    if !has_prefix(pv.pv_name.as_str(), "/dev/") {
        return Err(invalid("invalid LVM PV device path"));
    }
    let number = match pv.number {
        Some(number) => number,
        None => return Err(ProbeError::Unreadable),
    };
    let device = match find_numbered(devices, number) {
        Some(device) => device,
        None => return Err(invalid("LVM PV is outside the verified NBD candidates")),
    };
    let path = device.path.as_str();
    let borne = match labels.get(path) {
        Some(label) => same(label.as_str(), id),
        None => false,
    };
    assert(borne == (crate::table::entries(labels@).contains_key(path@) && crate::table::entries(
        labels@,
    )[path@] == id@));
    let repeated = holds_text(seen, id);
    assert(repeated == has_text(had, id@));
    if !same(pv.vg_uuid.as_str(), vg_id) || !same(pv.pv_missing.as_str(), "0") || !same(
        pv.pv_duplicate.as_str(),
        "0",
    ) || !borne || repeated || seen.contains_key(path) {
        return Err(invalid("LVM PV membership does not match unique verified NBD labels"));
    }
    let owned = pv.pv_uuid.clone();
    proof {
        crate::table::lemma_entries_insert(seen@, path@, owned);
    }
    seen.insert(path, owned);
    Ok(())
}

fn account_pvs(devices: &Vec<Device>, labels: &Table<String>, vg_id: &str, pvs: &Vec<Pv>) -> (r:
    Result<Table<String>, ProbeError>)
    ensures
        ({
            let said = pvs_upto(
                candidates(devices@),
                crate::table::entries(labels@),
                vg_id@,
                pvs@,
                pvs@.len(),
            );
            match r {
                Ok(seen) => said == Ok::<Map<Seq<char>, Seq<char>>, crate::sysfs::Complaint>(
                    crate::table::entries(seen@),
                ),
                Err(e) => said == Err::<Map<Seq<char>, Seq<char>>, crate::sysfs::Complaint>(e@),
            }
        }),
{
    let ghost all = candidates(devices@);
    let ghost map = crate::table::entries(labels@);
    let mut seen: Table<String> = Table::new();
    let mut i: usize = 0;
    assert(crate::table::entries(seen@) =~= Map::<Seq<char>, Seq<char>>::empty());
    while i < pvs.len()
        invariant
            i <= pvs.len(),
            all == candidates(devices@),
            map == crate::table::entries(labels@),
            pvs_upto(all, map, vg_id@, pvs@, i as nat) == Ok::<
                Map<Seq<char>, Seq<char>>,
                crate::sysfs::Complaint,
            >(crate::table::entries(seen@)),
        decreases pvs.len() - i,
    {
        match add_pv(devices, labels, vg_id, &pvs[i], &mut seen) {
            Ok(()) => {},
            Err(e) => {
                proof {
                    lemma_pvs_stop(all, map, vg_id@, pvs@, (i + 1) as nat);
                }
                return Err(e);
            },
        }
        i += 1;
    }
    Ok(seen)
}

/// The words of a layout, among the first `n` pieces; none where one of them is
/// no word or repeats another.
pub open spec fn layout_upto(pieces: Seq<Seq<char>>, n: nat) -> Option<Set<Seq<char>>>
    decreases n,
{
    if n == 0 {
        Some(Set::empty())
    } else {
        match layout_upto(pieces, (n - 1) as nat) {
            None => None,
            Some(words) => {
                let token = crate::text::trimmed(pieces[n - 1]);
                if layout_word(token) && !words.contains(token) {
                    Some(words.insert(token))
                } else {
                    None
                }
            },
        }
    }
}

/// The words of a reported layout.
pub open spec fn layout_words(layout: Seq<char>) -> Option<Set<Seq<char>>> {
    let pieces = crate::text::split(layout, ',');
    layout_upto(pieces, pieces.len())
}

proof fn lemma_layout_stops(pieces: Seq<Seq<char>>, n: nat)
    requires
        n <= pieces.len(),
        layout_upto(pieces, n) is None,
    ensures
        layout_upto(pieces, pieces.len()) is None,
    decreases pieces.len() - n,
{
    if n < pieces.len() {
        lemma_layout_stops(pieces, n + 1);
    }
}

fn read_layout(layout: &str) -> (r: Option<Table<()>>)
    ensures
        match r {
            Some(words) => layout_words(layout@) == Some(words@.dom()),
            None => layout_words(layout@) is None,
        },
{
    let pieces = split_text(layout, ',');
    let ghost texts = crate::text::split(layout@, ',');
    let mut words: Table<()> = Table::new();
    let mut i: usize = 0;
    assert(words@.dom() =~= Set::<Seq<char>>::empty());
    while i < pieces.len()
        invariant
            i <= pieces.len(),
            texts == crate::text::texts(pieces@),
            texts == crate::text::split(layout@, ','),
            layout_upto(texts, i as nat) == Some(words@.dom()),
        decreases pieces.len() - i,
    {
        assert(texts[i as int] == pieces@[i as int]@);
        let token = trim(pieces[i]);
        let ghost had = words@.dom();
        if !is_layout_word(token) || words.contains_key(token) {
            proof {
                assert(words@.contains_key(token@) == had.contains(token@));
                lemma_layout_stops(texts, (i + 1) as nat);
            }
            return None;
        }
        words.insert(token, ());
        assert(words@.dom() =~= had.insert(token@));
        i += 1;
    }
    Some(words)
}

/// The logical volumes that were read so far.
pub struct Volumes {
    pub lvs: Map<Seq<char>, Seq<char>>,
    pub layouts: Map<Seq<char>, Set<Seq<char>>>,
}

/// What a logical volume adds.
pub open spec fn with_lv(vg_id: Seq<char>, lv: Lv, had: Volumes) -> Result<
    Volumes,
    crate::sysfs::Complaint,
> {
    if !lvm_uuid(lv.lv_uuid@) {
        Err(crate::sysfs::Complaint::Invalid("invalid LVM UUID"@))
    } else {
        match layout_words(lv.lv_layout@) {
            None => Err(
                crate::sysfs::Complaint::Invalid("invalid or unsupported LVM layout report"@),
            ),
            Some(words) => if words.contains("cache"@) && words.contains("cachevol"@) {
                Err(
                    crate::sysfs::Complaint::Invalid(
                        "cachevol synthetic mapping UUIDs are not supported by preflight"@,
                    ),
                )
            } else if lv.vg_uuid@ != vg_id || lv.lv_name@.len() == 0 || has_text(
                had.lvs,
                lv.lv_uuid@,
            ) || had.lvs.contains_key(lv.lv_name@) {
                Err(
                    crate::sysfs::Complaint::Invalid("LVM LV identity is foreign or ambiguous"@),
                )
            } else {
                Ok(
                    Volumes {
                        lvs: had.lvs.insert(lv.lv_name@, lv.lv_uuid@),
                        layouts: had.layouts.insert(lv.lv_uuid@, words),
                    },
                )
            },
        }
    }
}

/// What the first `n` logical volumes say.
pub open spec fn lvs_upto(vg_id: Seq<char>, lvs: Seq<Lv>, n: nat) -> Result<
    Volumes,
    crate::sysfs::Complaint,
>
    decreases n,
{
    if n == 0 {
        Ok(Volumes { lvs: Map::empty(), layouts: Map::empty() })
    } else {
        match lvs_upto(vg_id, lvs, (n - 1) as nat) {
            Err(c) => Err(c),
            Ok(had) => with_lv(vg_id, lvs[n - 1], had),
        }
    }
}

proof fn lemma_lvs_stop(vg_id: Seq<char>, lvs: Seq<Lv>, n: nat)
    requires
        n <= lvs.len(),
        lvs_upto(vg_id, lvs, n) is Err,
    ensures
        lvs_upto(vg_id, lvs, lvs.len()) == lvs_upto(vg_id, lvs, n),
    decreases lvs.len() - n,
{
    if n < lvs.len() {
        lemma_lvs_stop(vg_id, lvs, n + 1);
    }
}

/// Tables of logical volumes.
struct VolumeTables {
    lvs: Table<String>,
    layouts: Table<Table<()>>,
}

impl VolumeTables {
    spec fn model(&self) -> Volumes {
        Volumes { lvs: crate::table::entries(self.lvs@), layouts: layout_sets(self.layouts@) }
    }
}

fn add_lv(vg_id: &str, lv: &Lv, tables: &mut VolumeTables) -> (r: Result<(), ProbeError>)
    ensures
        match r {
            Ok(()) => with_lv(vg_id@, *lv, old(tables).model()) == Ok::<
                Volumes,
                crate::sysfs::Complaint,
            >(final(tables).model()),
            Err(e) => with_lv(vg_id@, *lv, old(tables).model()) == Err::<
                Volumes,
                crate::sysfs::Complaint,
            >(e@),
        },
{
    let ghost had = tables.model();
    let id = lv.lv_uuid.as_str();
    if !is_lvm_uuid(id) {
        return Err(invalid("invalid LVM UUID"));
    }
    let words = match read_layout(lv.lv_layout.as_str()) {
        Some(words) => words,
        None => return Err(invalid("invalid or unsupported LVM layout report")),
    };
    assert(words@.contains_key("cache"@) == words@.dom().contains("cache"@));
    assert(words@.contains_key("cachevol"@) == words@.dom().contains("cachevol"@));
    if words.contains_key("cache") && words.contains_key("cachevol") {
        return Err(invalid("cachevol synthetic mapping UUIDs are not supported by preflight"));
    }
    let repeated = holds_text(&tables.lvs, id);
    assert(repeated == has_text(had.lvs, id@));
    let name = lv.lv_name.as_str();
    if !same(lv.vg_uuid.as_str(), vg_id) || name.is_empty() || repeated || tables.lvs.contains_key(
        name,
    ) {
        return Err(invalid("LVM LV identity is foreign or ambiguous"));
    }
    let owned = lv.lv_uuid.clone();
    proof {
        crate::table::lemma_entries_insert(tables.lvs@, name@, owned);
        assert(layout_sets(tables.layouts@.insert(id@, words)) =~= layout_sets(
            tables.layouts@,
        ).insert(id@, words@.dom()));
    }
    tables.layouts.insert(id, words);
    tables.lvs.insert(name, owned);
    Ok(())
}

fn read_lvs(vg_id: &str, lvs: &Vec<Lv>) -> (r: Result<VolumeTables, ProbeError>)
    ensures
        match r {
            Ok(tables) => lvs_upto(vg_id@, lvs@, lvs@.len()) == Ok::<
                Volumes,
                crate::sysfs::Complaint,
            >(tables.model()),
            Err(e) => lvs_upto(vg_id@, lvs@, lvs@.len()) == Err::<
                Volumes,
                crate::sysfs::Complaint,
            >(e@),
        },
{
    let mut tables = VolumeTables { lvs: Table::new(), layouts: Table::new() };
    let mut i: usize = 0;
    assert(tables.model().lvs =~= Map::<Seq<char>, Seq<char>>::empty());
    assert(tables.model().layouts =~= Map::<Seq<char>, Set<Seq<char>>>::empty());
    while i < lvs.len()
        invariant
            i <= lvs.len(),
            lvs_upto(vg_id@, lvs@, i as nat) == Ok::<Volumes, crate::sysfs::Complaint>(
                tables.model(),
            ),
        decreases lvs.len() - i,
    {
        match add_lv(vg_id, &lvs[i], &mut tables) {
            Ok(()) => {},
            Err(e) => {
                proof {
                    lemma_lvs_stop(vg_id@, lvs@, (i + 1) as nat);
                }
                return Err(e);
            },
        }
        i += 1;
    }
    Ok(tables)
}

/// The one group that was accepted.
pub struct Chosen {
    pub vg_uuid: Seq<char>,
    pub vg_seqno: u64,
    pub lv_uuid: Seq<char>,
    pub volumes: Volumes,
    pub seen: Map<Seq<char>, Seq<char>>,
}

/// A group that nobody else owns or locks, and that is whole.
pub open spec fn vg_whole(vg: Vg) -> bool {
    &&& vg.vg_missing_pv_count@ == "0"@
    &&& vg.vg_partial@ == "0"@
    &&& vg.vg_exported@ == "0"@
    &&& vg.vg_systemid@.len() == 0
    &&& (vg.vg_lock_type@ == ""@ || vg.vg_lock_type@ == "none"@)
}

/// What a group of the report amounts to, when none was accepted before.
pub open spec fn chosen_from(
    devices: Seq<Candidate>,
    labels: Map<Seq<char>, Seq<char>>,
    lv_name: Seq<char>,
    vg: Vg,
    group: Group,
) -> Result<Chosen, crate::sysfs::Complaint> {
    if !vg_whole(vg) {
        Err(
            crate::sysfs::Complaint::Invalid(
                "LVM VG is missing, partial, exported, or requires external ownership coordination"@,
            ),
        )
    } else {
        match crate::text::parsed_upto(vg.pv_count@, usize::MAX as nat) {
            None => Err(crate::sysfs::Complaint::Invalid("invalid VG PV count"@)),
            Some(count) => if count == 0 || count != group.pv@.len() || count > devices.len() {
                Err(crate::sysfs::Complaint::Invalid("LVM VG has incomplete PV membership"@))
            } else {
                match pvs_upto(devices, labels, vg.vg_uuid@, group.pv@, group.pv@.len()) {
                    Err(c) => Err(c),
                    Ok(seen) => match lvs_upto(vg.vg_uuid@, group.lv@, group.lv@.len()) {
                        Err(c) => Err(c),
                        Ok(volumes) => if !volumes.lvs.contains_key(lv_name) {
                            Err(
                                crate::sysfs::Complaint::Invalid(
                                    "configured LV is missing from verified VG"@,
                                ),
                            )
                        } else {
                            match crate::text::parsed_upto(vg.vg_seqno@, u64::MAX as nat) {
                                None => Err(
                                    crate::sysfs::Complaint::Invalid(
                                        "invalid LVM metadata sequence"@,
                                    ),
                                ),
                                Some(seq) => Ok(
                                    Chosen {
                                        vg_uuid: vg.vg_uuid@,
                                        vg_seqno: seq as u64,
                                        lv_uuid: volumes.lvs[lv_name],
                                        volumes,
                                        seen,
                                    },
                                ),
                            }
                        },
                    },
                }
            },
        }
    }
}

/// What the first `n` groups of the report amount to: at most one group, of the
/// configured name.
pub open spec fn groups_upto(
    devices: Seq<Candidate>,
    labels: Map<Seq<char>, Seq<char>>,
    vg_name: Seq<char>,
    lv_name: Seq<char>,
    groups: Seq<Group>,
    n: nat,
) -> Result<Option<Chosen>, crate::sysfs::Complaint>
    decreases n,
{
    if n == 0 {
        Ok(None)
    } else {
        match groups_upto(devices, labels, vg_name, lv_name, groups, (n - 1) as nat) {
            Err(c) => Err(c),
            Ok(had) => {
                let group = groups[n - 1];
                if group.vg@.len() != 1 {
                    Err(
                        crate::sysfs::Complaint::Invalid(
                            "LVM fullreport has ambiguous VG membership"@,
                        ),
                    )
                } else if !lvm_uuid(group.vg@[0].vg_uuid@) {
                    Err(crate::sysfs::Complaint::Invalid("invalid LVM UUID"@))
                } else if group.vg@[0].vg_name@ != vg_name || had is Some {
                    Err(
                        crate::sysfs::Complaint::Invalid(
                            "NBD PV metadata contains a foreign or ambiguous VG"@,
                        ),
                    )
                } else {
                    match chosen_from(devices, labels, lv_name, group.vg@[0], group) {
                        Err(c) => Err(c),
                        Ok(chosen) => Ok(Some(chosen)),
                    }
                }
            },
        }
    }
}

/// The identity that a report verifies, or why it verifies none. `report` is
/// what the report's bytes denote, if they denote one.
pub open spec fn validated(
    len: nat,
    report: Option<Vec<Group>>,
    devices: Seq<Candidate>,
    labels: Map<Seq<char>, Seq<char>>,
    vg_name: Seq<char>,
    lv_name: Seq<char>,
) -> Result<Verified, crate::sysfs::Complaint> {
    if len > MAX_REPORT || devices.len() == 0 || devices.len() > MAX_DEVICES {
        Err(
            crate::sysfs::Complaint::Invalid(
                "LVM preflight report or device count exceeds its bound"@,
            ),
        )
    } else {
        match ranges_complaint(labelled(devices, labels, devices.len()), 0) {
            Some(m) => Err(crate::sysfs::Complaint::Invalid(m)),
            None => match report {
                None => Err(
                    crate::sysfs::Complaint::Invalid("invalid or unsupported LVM fullreport"@),
                ),
                Some(groups) => match groups_upto(
                    devices,
                    labels,
                    vg_name,
                    lv_name,
                    groups@,
                    groups@.len(),
                ) {
                    Err(c) => Err(c),
                    Ok(None) => Err(
                        crate::sysfs::Complaint::Invalid(
                            "LVM fullreport omitted independently observed PV labels"@,
                        ),
                    ),
                    Ok(Some(chosen)) => if labels.dom() == Set::<Seq<char>>::empty() || labels
                        != chosen.seen {
                        Err(
                            crate::sysfs::Complaint::Invalid(
                                "LVM fullreport omitted independently observed PV labels"@,
                            ),
                        )
                    } else {
                        Ok(
                            Verified {
                                devices,
                                labels,
                                vg_uuid: chosen.vg_uuid,
                                vg_seqno: chosen.vg_seqno,
                                lv_uuid: chosen.lv_uuid,
                                lvs: chosen.volumes.lvs,
                                layouts: chosen.volumes.layouts,
                            },
                        )
                    },
                },
            },
        }
    }
}

// ---------- the order of a report's rows ----------

/// What the rows amount to, one after the other.
spec fn folded<R, S>(
    step: spec_fn(R, S) -> Result<S, crate::sysfs::Complaint>,
    start: S,
    rows: Seq<R>,
) -> Result<S, crate::sysfs::Complaint>
    decreases rows.len(),
{
    if rows.len() == 0 {
        Ok(start)
    } else {
        match folded(step, start, rows.drop_last()) {
            Err(c) => Err(c),
            Ok(had) => step(rows.last(), had),
        }
    }
}

/// Two rows that are accepted one after the other are accepted the other way
/// round too, to the same end.
spec fn interchanges<R, S>(
    step: spec_fn(R, S) -> Result<S, crate::sysfs::Complaint>,
    a: R,
    b: R,
    had: S,
) -> bool {
    step(a, had) is Ok && step(b, step(a, had)->Ok_0) is Ok ==> step(b, had) is Ok && step(
        a,
        step(b, had)->Ok_0,
    ) == step(b, step(a, had)->Ok_0)
}

proof fn lemma_row_moves<R, S>(
    step: spec_fn(R, S) -> Result<S, crate::sysfs::Complaint>,
    start: S,
    rows: Seq<R>,
    k: int,
)
    requires
        forall|a: R, b: R, had: S| #[trigger] interchanges(step, a, b, had),
        0 <= k < rows.len(),
        folded(step, start, rows) is Ok,
    ensures
        folded(step, start, rows.remove(k).push(rows[k])) == folded(step, start, rows),
    decreases rows.len(),
{
    let x = rows[k];
    if k == rows.len() - 1 {
        assert(rows.remove(k).push(x) =~= rows);
    } else {
        let front = rows.drop_last();
        let z = rows.last();
        lemma_row_moves(step, start, front, k);
        let rest = front.remove(k);
        assert(rest.push(x).drop_last() =~= rest);
        assert(rest.push(x).last() == x);
        let had = folded(step, start, rest)->Ok_0;
        assert(front[k] == x);
        assert(folded(step, start, front) == step(x, had));
        assert(interchanges(step, x, z, had));
        let moved = rows.remove(k).push(x);
        assert(moved.drop_last() =~= rest.push(z));
        assert(rest.push(z).drop_last() =~= rest);
        assert(moved.last() == x);
        assert(rest.push(z).last() == z);
        assert(folded(step, start, rest.push(z)) == step(z, had));
    }
}

proof fn lemma_rows_reorder<R, S>(
    step: spec_fn(R, S) -> Result<S, crate::sysfs::Complaint>,
    start: S,
    rows: Seq<R>,
    others: Seq<R>,
)
    requires
        forall|a: R, b: R, had: S| #[trigger] interchanges(step, a, b, had),
        rows.to_multiset() == others.to_multiset(),
        folded(step, start, rows) is Ok,
    ensures
        folded(step, start, others) == folded(step, start, rows),
    decreases others.len(),
{
    rows.to_multiset_ensures();
    others.to_multiset_ensures();
    assert(rows.len() == others.len());
    if others.len() > 0 {
        let x = others.last();
        assert(others[others.len() - 1] == x);
        assert(others.contains(x));
        assert(others.to_multiset().count(x) > 0);
        assert(rows.contains(x));
        let k = choose|k: int| 0 <= k < rows.len() && rows[k] == x;
        lemma_row_moves(step, start, rows, k);
        let rest = rows.remove(k);
        let moved = rest.push(x);
        assert(moved.drop_last() =~= rest);
        assert(moved.last() == x);
        let last = others.len() - 1;
        assert(others.drop_last() =~= others.remove(last));
        assert(rest.to_multiset() =~= rows.to_multiset().remove(x));
        assert(others.remove(last).to_multiset() =~= others.to_multiset().remove(x));
        lemma_rows_reorder(step, start, rest, others.drop_last());
    }
}

spec fn pv_step(
    devices: Seq<Candidate>,
    labels: Map<Seq<char>, Seq<char>>,
    vg_id: Seq<char>,
) -> spec_fn(Pv, Map<Seq<char>, Seq<char>>) -> Result<
    Map<Seq<char>, Seq<char>>,
    crate::sysfs::Complaint,
> {
    |pv: Pv, seen: Map<Seq<char>, Seq<char>>| with_pv(devices, labels, vg_id, pv, seen)
}

spec fn lv_step(vg_id: Seq<char>) -> spec_fn(Lv, Volumes) -> Result<
    Volumes,
    crate::sysfs::Complaint,
> {
    |lv: Lv, had: Volumes| with_lv(vg_id, lv, had)
}

proof fn lemma_text_added(
    map: Map<Seq<char>, Seq<char>>,
    key: Seq<char>,
    value: Seq<char>,
    text: Seq<char>,
)
    requires
        !map.contains_key(key),
    ensures
        has_text(map.insert(key, value), text) <==> has_text(map, text) || value == text,
{
    let more = map.insert(key, value);
    if has_text(map, text) {
        let k = choose|k: Seq<char>| #[trigger] map.contains_key(k) && map[k] == text;
        assert(more.contains_key(k) && more[k] == text);
    }
    if value == text {
        assert(more.contains_key(key) && more[key] == text);
    }
    if has_text(more, text) {
        let k = choose|k: Seq<char>| #[trigger] more.contains_key(k) && more[k] == text;
        if k != key {
            assert(map.contains_key(k) && map[k] == text);
        }
    }
}

proof fn lemma_pvs_interchange(
    devices: Seq<Candidate>,
    labels: Map<Seq<char>, Seq<char>>,
    vg_id: Seq<char>,
    a: Pv,
    b: Pv,
    seen: Map<Seq<char>, Seq<char>>,
)
    ensures
        interchanges(pv_step(devices, labels, vg_id), a, b, seen),
{
    let step = pv_step(devices, labels, vg_id);
    if step(a, seen) is Ok && step(b, step(a, seen)->Ok_0) is Ok {
        let pa = device_numbered(devices, a.number->Some_0, 0)->Some_0.path;
        let pb = device_numbered(devices, b.number->Some_0, 0)->Some_0.path;
        lemma_text_added(seen, pa, a.pv_uuid@, b.pv_uuid@);
        lemma_text_added(seen, pb, b.pv_uuid@, a.pv_uuid@);
        assert(seen.insert(pa, a.pv_uuid@).insert(pb, b.pv_uuid@) =~= seen.insert(
            pb,
            b.pv_uuid@,
        ).insert(pa, a.pv_uuid@));
    }
}

proof fn lemma_lvs_interchange(vg_id: Seq<char>, a: Lv, b: Lv, had: Volumes)
    ensures
        interchanges(lv_step(vg_id), a, b, had),
{
    let step = lv_step(vg_id);
    if step(a, had) is Ok && step(b, step(a, had)->Ok_0) is Ok {
        lemma_text_added(had.lvs, a.lv_name@, a.lv_uuid@, b.lv_uuid@);
        lemma_text_added(had.lvs, b.lv_name@, b.lv_uuid@, a.lv_uuid@);
        let wa = layout_words(a.lv_layout@)->Some_0;
        let wb = layout_words(b.lv_layout@)->Some_0;
        assert(had.lvs.insert(a.lv_name@, a.lv_uuid@).insert(b.lv_name@, b.lv_uuid@)
            =~= had.lvs.insert(b.lv_name@, b.lv_uuid@).insert(a.lv_name@, a.lv_uuid@));
        assert(had.layouts.insert(a.lv_uuid@, wa).insert(b.lv_uuid@, wb) =~= had.layouts.insert(
            b.lv_uuid@,
            wb,
        ).insert(a.lv_uuid@, wa));
    }
}

proof fn lemma_pvs_folded(
    devices: Seq<Candidate>,
    labels: Map<Seq<char>, Seq<char>>,
    vg_id: Seq<char>,
    pvs: Seq<Pv>,
    n: nat,
)
    requires
        n <= pvs.len(),
    ensures
        pvs_upto(devices, labels, vg_id, pvs, n) == folded(
            pv_step(devices, labels, vg_id),
            Map::empty(),
            pvs.take(n as int),
        ),
    decreases n,
{
    if n > 0 {
        lemma_pvs_folded(devices, labels, vg_id, pvs, (n - 1) as nat);
        assert(pvs.take(n as int).drop_last() =~= pvs.take(n - 1));
    }
}

proof fn lemma_lvs_folded(vg_id: Seq<char>, lvs: Seq<Lv>, n: nat)
    requires
        n <= lvs.len(),
    ensures
        lvs_upto(vg_id, lvs, n) == folded(
            lv_step(vg_id),
            Volumes { lvs: Map::empty(), layouts: Map::empty() },
            lvs.take(n as int),
        ),
    decreases n,
{
    if n > 0 {
        lemma_lvs_folded(vg_id, lvs, (n - 1) as nat);
        assert(lvs.take(n as int).drop_last() =~= lvs.take(n - 1));
    }
}

/// The reports hold the same groups with the same rows; within a group the
/// physical and the logical volumes may come in another order.
pub open spec fn same_rows(a: Seq<Group>, b: Seq<Group>) -> bool {
    &&& a.len() == b.len()
    &&& forall|i: int|
        #![trigger a[i]]
        #![trigger b[i]]
        0 <= i < a.len() ==> a[i].vg@ == b[i].vg@ && a[i].pv@.to_multiset()
            == b[i].pv@.to_multiset() && a[i].lv@.to_multiset() == b[i].lv@.to_multiset()
}

proof fn lemma_group_reorders(
    devices: Seq<Candidate>,
    labels: Map<Seq<char>, Seq<char>>,
    lv_name: Seq<char>,
    vg: Vg,
    a: Group,
    b: Group,
)
    requires
        a.pv@.to_multiset() == b.pv@.to_multiset(),
        a.lv@.to_multiset() == b.lv@.to_multiset(),
        chosen_from(devices, labels, lv_name, vg, a) is Ok,
    ensures
        chosen_from(devices, labels, lv_name, vg, b) == chosen_from(devices, labels, lv_name, vg, a),
{
    a.pv@.to_multiset_ensures();
    b.pv@.to_multiset_ensures();
    a.lv@.to_multiset_ensures();
    b.lv@.to_multiset_ensures();
    let vg_id = vg.vg_uuid@;
    lemma_pvs_folded(devices, labels, vg_id, a.pv@, a.pv@.len());
    lemma_pvs_folded(devices, labels, vg_id, b.pv@, b.pv@.len());
    lemma_lvs_folded(vg_id, a.lv@, a.lv@.len());
    lemma_lvs_folded(vg_id, b.lv@, b.lv@.len());
    assert(a.pv@.take(a.pv@.len() as int) =~= a.pv@);
    assert(b.pv@.take(b.pv@.len() as int) =~= b.pv@);
    assert(a.lv@.take(a.lv@.len() as int) =~= a.lv@);
    assert(b.lv@.take(b.lv@.len() as int) =~= b.lv@);
    assert forall|x: Pv, y: Pv, seen: Map<Seq<char>, Seq<char>>| #[trigger]
        interchanges(pv_step(devices, labels, vg_id), x, y, seen) by {
        lemma_pvs_interchange(devices, labels, vg_id, x, y, seen);
    }
    assert forall|x: Lv, y: Lv, had: Volumes| #[trigger]
        interchanges(lv_step(vg_id), x, y, had) by {
        lemma_lvs_interchange(vg_id, x, y, had);
    }
    lemma_rows_reorder(
        pv_step(devices, labels, vg_id),
        Map::<Seq<char>, Seq<char>>::empty(),
        a.pv@,
        b.pv@,
    );
    lemma_rows_reorder(
        lv_step(vg_id),
        Volumes { lvs: Map::empty(), layouts: Map::empty() },
        a.lv@,
        b.lv@,
    );
}

proof fn lemma_groups_reorder(
    devices: Seq<Candidate>,
    labels: Map<Seq<char>, Seq<char>>,
    vg_name: Seq<char>,
    lv_name: Seq<char>,
    a: Seq<Group>,
    b: Seq<Group>,
    n: nat,
)
    requires
        same_rows(a, b),
        n <= a.len(),
        groups_upto(devices, labels, vg_name, lv_name, a, n) is Ok,
    ensures
        groups_upto(devices, labels, vg_name, lv_name, b, n) == groups_upto(
            devices,
            labels,
            vg_name,
            lv_name,
            a,
            n,
        ),
    decreases n,
{
    if n > 0 {
        lemma_groups_reorder(devices, labels, vg_name, lv_name, a, b, (n - 1) as nat);
        let i = n - 1;
        assert(a[i].vg@ == b[i].vg@);
        lemma_group_reorders(devices, labels, lv_name, a[i].vg@[0], a[i], b[i]);
    }
}

/// The order in which a report lists the volumes of a group does not matter: a
/// report is accepted whichever way they come, and verifies the same identity.
pub proof fn the_order_of_rows_does_not_matter(
    len: nat,
    a: Vec<Group>,
    b: Vec<Group>,
    devices: Seq<Candidate>,
    labels: Map<Seq<char>, Seq<char>>,
    vg_name: Seq<char>,
    lv_name: Seq<char>,
)
    requires
        same_rows(a@, b@),
    ensures
        validated(len, Some(a), devices, labels, vg_name, lv_name) is Ok <==> validated(
            len,
            Some(b),
            devices,
            labels,
            vg_name,
            lv_name,
        ) is Ok,
        validated(len, Some(a), devices, labels, vg_name, lv_name) is Ok ==> validated(
            len,
            Some(a),
            devices,
            labels,
            vg_name,
            lv_name,
        ) == validated(len, Some(b), devices, labels, vg_name, lv_name),
{
    let n = a@.len();
    if groups_upto(devices, labels, vg_name, lv_name, a@, n) is Ok {
        lemma_groups_reorder(devices, labels, vg_name, lv_name, a@, b@, n);
    }
    if groups_upto(devices, labels, vg_name, lv_name, b@, n) is Ok {
        lemma_groups_reorder(devices, labels, vg_name, lv_name, b@, a@, n);
    }
}

/// The accepted group, as values.
struct Selected {
    vg_uuid: String,
    vg_seqno: u64,
    lv_uuid: String,
    tables: VolumeTables,
    seen: Table<String>,
}

impl Selected {
    spec fn model(&self) -> Chosen {
        Chosen {
            vg_uuid: self.vg_uuid@,
            vg_seqno: self.vg_seqno,
            lv_uuid: self.lv_uuid@,
            volumes: self.tables.model(),
            seen: crate::table::entries(self.seen@),
        }
    }
}

fn is_vg_whole(vg: &Vg) -> (r: bool)
    ensures
        r == vg_whole(*vg),
{
    same(vg.vg_missing_pv_count.as_str(), "0") && same(vg.vg_partial.as_str(), "0") && same(
        vg.vg_exported.as_str(),
        "0",
    ) && vg.vg_systemid.as_str().is_empty() && (same(vg.vg_lock_type.as_str(), "") || same(
        vg.vg_lock_type.as_str(),
        "none",
    ))
}

fn choose_group(
    devices: &Vec<Device>,
    labels: &Table<String>,
    lv_name: &str,
    vg: &Vg,
    group: &Group,
) -> (r: Result<Selected, ProbeError>)
    ensures
        ({
            let said = chosen_from(
                candidates(devices@),
                crate::table::entries(labels@),
                lv_name@,
                *vg,
                *group,
            );
            match r {
                Ok(selected) => said == Ok::<Chosen, crate::sysfs::Complaint>(selected.model()),
                Err(e) => said == Err::<Chosen, crate::sysfs::Complaint>(e@),
            }
        }),
{
    if !is_vg_whole(vg) {
        return Err(
            invalid(
                "LVM VG is missing, partial, exported, or requires external ownership coordination",
            ),
        );
    }
    let count: u64 = match parse_upto(vg.pv_count.as_str(), usize::MAX as u64) {
        Some(count) => count,
        None => return Err(invalid("invalid VG PV count")),
    };
    if count == 0 || count != group.pv.len() as u64 || count > devices.len() as u64 {
        return Err(invalid("LVM VG has incomplete PV membership"));
    }
    let seen = match account_pvs(devices, labels, vg.vg_uuid.as_str(), &group.pv) {
        Ok(seen) => seen,
        Err(e) => return Err(e),
    };
    let tables = match read_lvs(vg.vg_uuid.as_str(), &group.lv) {
        Ok(tables) => tables,
        Err(e) => return Err(e),
    };
    let lv_uuid = match tables.lvs.get(lv_name) {
        Some(id) => id.clone(),
        None => return Err(invalid("configured LV is missing from verified VG")),
    };
    assert(tables.model().lvs.contains_key(lv_name@));
    let vg_seqno: u64 = match parse_upto(vg.vg_seqno.as_str(), u64::MAX) {
        Some(n) => n,
        None => return Err(invalid("invalid LVM metadata sequence")),
    };
    Ok(Selected { vg_uuid: vg.vg_uuid.clone(), vg_seqno, lv_uuid, tables, seen })
}

proof fn lemma_groups_stop(
    devices: Seq<Candidate>,
    labels: Map<Seq<char>, Seq<char>>,
    vg_name: Seq<char>,
    lv_name: Seq<char>,
    groups: Seq<Group>,
    n: nat,
)
    requires
        n <= groups.len(),
        groups_upto(devices, labels, vg_name, lv_name, groups, n) is Err,
    ensures
        groups_upto(devices, labels, vg_name, lv_name, groups, groups.len()) == groups_upto(
            devices,
            labels,
            vg_name,
            lv_name,
            groups,
            n,
        ),
    decreases groups.len() - n,
{
    if n < groups.len() {
        lemma_groups_stop(devices, labels, vg_name, lv_name, groups, n + 1);
    }
}

fn read_groups(
    devices: &Vec<Device>,
    labels: &Table<String>,
    vg_name: &str,
    lv_name: &str,
    groups: &Vec<Group>,
) -> (r: Result<Option<Selected>, ProbeError>)
    ensures
        ({
            let said = groups_upto(
                candidates(devices@),
                crate::table::entries(labels@),
                vg_name@,
                lv_name@,
                groups@,
                groups@.len(),
            );
            match r {
                Ok(Some(selected)) => said == Ok::<Option<Chosen>, crate::sysfs::Complaint>(
                    Some(selected.model()),
                ),
                Ok(None) => said == Ok::<Option<Chosen>, crate::sysfs::Complaint>(None),
                Err(e) => said == Err::<Option<Chosen>, crate::sysfs::Complaint>(e@),
            }
        }),
{
    let ghost all = candidates(devices@);
    let ghost map = crate::table::entries(labels@);
    let mut selected: Option<Selected> = None;
    let mut i: usize = 0;
    while i < groups.len()
        invariant
            i <= groups.len(),
            all == candidates(devices@),
            map == crate::table::entries(labels@),
            groups_upto(all, map, vg_name@, lv_name@, groups@, i as nat) == Ok::<
                Option<Chosen>,
                crate::sysfs::Complaint,
            >(
                match selected {
                    Some(s) => Some(s.model()),
                    None => None,
                },
            ),
        decreases groups.len() - i,
    {
        let group = &groups[i];
        if group.vg.len() != 1 {
            proof {
                lemma_groups_stop(all, map, vg_name@, lv_name@, groups@, (i + 1) as nat);
            }
            return Err(invalid("LVM fullreport has ambiguous VG membership"));
        }
        let vg = &group.vg[0];
        if !is_lvm_uuid(vg.vg_uuid.as_str()) {
            proof {
                lemma_groups_stop(all, map, vg_name@, lv_name@, groups@, (i + 1) as nat);
            }
            return Err(invalid("invalid LVM UUID"));
        }
        if !same(vg.vg_name.as_str(), vg_name) || selected.is_some() {
            proof {
                lemma_groups_stop(all, map, vg_name@, lv_name@, groups@, (i + 1) as nat);
            }
            return Err(invalid("NBD PV metadata contains a foreign or ambiguous VG"));
        }
        match choose_group(devices, labels, lv_name, vg, group) {
            Ok(s) => {
                selected = Some(s);
            },
            Err(e) => {
                proof {
                    lemma_groups_stop(all, map, vg_name@, lv_name@, groups@, (i + 1) as nat);
                }
                return Err(e);
            },
        }
        i += 1;
    }
    Ok(selected)
}

/// Verify the report on the candidate devices: exactly one group of the
/// configured name, whose physical volumes are exactly the labelled devices,
/// and which holds the configured logical volume.
pub fn validate(
    len: usize,
    report: &Option<Vec<Group>>,
    devices: Vec<Device>,
    labels: Table<String>,
    vg_name: &str,
    lv_name: &str,
) -> (r: Result<VerifiedLvm, ProbeError>)
    ensures
        ({
            let said = validated(
                len as nat,
                *report,
                candidates(devices@),
                crate::table::entries(labels@),
                vg_name@,
                lv_name@,
            );
            match r {
                Ok(verified) => said == Ok::<Verified, crate::sysfs::Complaint>(verified@),
                Err(e) => said == Err::<Verified, crate::sysfs::Complaint>(e@),
            }
        }),
{
    if len > MAX_REPORT || devices.len() == 0 || devices.len() > MAX_DEVICES {
        return Err(invalid("LVM preflight report or device count exceeds its bound"));
    }
    match check_ranges(&devices, &labels) {
        Some(message) => return Err(invalid(message)),
        None => {},
    }
    let groups = match report {
        Some(groups) => groups,
        None => return Err(invalid("invalid or unsupported LVM fullreport")),
    };
    let selected = match read_groups(&devices, &labels, vg_name, lv_name, groups) {
        Ok(Some(selected)) => selected,
        Ok(None) => return Err(
            invalid("LVM fullreport omitted independently observed PV labels"),
        ),
        Err(e) => return Err(e),
    };
    if has_no_keys(&labels) || !same_texts(&labels, &selected.seen) {
        return Err(invalid("LVM fullreport omitted independently observed PV labels"));
    }
    Ok(
        VerifiedLvm {
            devices,
            labels,
            vg_uuid: selected.vg_uuid,
            vg_seqno: selected.vg_seqno,
            lv_uuid: selected.lv_uuid,
            lvs: selected.tables.lvs,
            layouts: selected.tables.layouts,
        },
    )
}

// ---------- mappings ----------

/// An LVM identifier without its hyphens.
pub open spec fn bare(id: Seq<char>) -> Seq<char> {
    crate::text::replaced(id, '-', ""@)
}

/// The device-mapper identifier of a logical volume.
pub open spec fn mapping_uuid(vg_uuid: Seq<char>, lv_uuid: Seq<char>) -> Seq<char> {
    "LVM-"@ + bare(vg_uuid) + bare(lv_uuid)
}

/// The layers that LVM itself puts under a logical volume.
pub open spec fn internal_layer(suffix: Seq<char>) -> bool {
    ||| suffix == "-real"@
    ||| suffix == "-tpool"@
    ||| suffix == "-tdata"@
    ||| suffix == "-tmeta"@
    ||| suffix == "-cdata"@
    ||| suffix == "-cmeta"@
    ||| suffix == "-cvol"@
    ||| suffix == "-pool"@
}

/// The mapping is the logical volume itself or one of its internal layers.
pub open spec fn maps_volume(uuid: Seq<char>, base: Seq<char>) -> bool {
    uuid == base || match crate::text::after_prefix(uuid, base) {
        Some(suffix) => internal_layer(suffix),
        None => false,
    }
}

/// The mapping belongs to a verified logical volume.
pub open spec fn owned_mapping(verified: Verified, uuid: Seq<char>) -> bool {
    exists|name: Seq<char>| #[trigger]
        verified.lvs.contains_key(name) && maps_volume(
            uuid,
            mapping_uuid(verified.vg_uuid, verified.lvs[name]),
        )
}

/// What an entry of the tree says about the mappings: whether the target was
/// found.
pub open spec fn with_mapped(
    vg_name: Seq<char>,
    lv_name: Seq<char>,
    verified: Verified,
    entry: BlockEntry,
    found: bool,
) -> Result<bool, crate::sysfs::Complaint> {
    if !crate::text::starts_with(entry.name@, "dm-"@) {
        Ok(found)
    } else {
        match entry.dm_name {
            None => Err(crate::sysfs::Complaint::Unreadable),
            Some(text) => {
                let name = crate::text::trimmed(text@);
                if crate::detach::mapped_group(name) != Some(vg_name) {
                    Ok(found)
                } else {
                    match entry.dm_uuid {
                        None => Err(crate::sysfs::Complaint::Unreadable),
                        Some(id) => {
                            let uuid = crate::text::trimmed(id@);
                            if !owned_mapping(verified, uuid) {
                                Err(
                                    crate::sysfs::Complaint::Invalid(
                                        "activated VG contains an unverified LV UUID"@,
                                    ),
                                )
                            } else if name != crate::detach::mapping_name(vg_name, lv_name) {
                                Ok(found)
                            } else if found || uuid != mapping_uuid(
                                verified.vg_uuid,
                                verified.lv_uuid,
                            ) {
                                Err(
                                    crate::sysfs::Complaint::Invalid(
                                        "activated LV UUID does not match preflight metadata"@,
                                    ),
                                )
                            } else {
                                Ok(true)
                            }
                        },
                    }
                }
            },
        }
    }
}

/// What the first `n` entries say about the mappings.
pub open spec fn mapped_upto(
    vg_name: Seq<char>,
    lv_name: Seq<char>,
    verified: Verified,
    entries: Seq<BlockEntry>,
    n: nat,
) -> Result<bool, crate::sysfs::Complaint>
    decreases n,
{
    if n == 0 {
        Ok(false)
    } else {
        match mapped_upto(vg_name, lv_name, verified, entries, (n - 1) as nat) {
            Err(c) => Err(c),
            Ok(found) => with_mapped(vg_name, lv_name, verified, entries[n - 1], found),
        }
    }
}

/// Whether the mappings of the group are the verified ones.
pub open spec fn mappings_verified(
    record: BoundDeviceRecord,
    verified: Verified,
    entries: Seq<BlockEntry>,
    require_target: bool,
) -> Result<(), crate::sysfs::Complaint> {
    match mapped_upto(
        record.attachment.vg_name@,
        record.attachment.lv_name@,
        verified,
        entries,
        entries.len(),
    ) {
        Err(c) => Err(c),
        Ok(found) => if require_target && !found {
            Err(crate::sysfs::Complaint::Invalid("verified LV was not activated"@))
        } else {
            Ok(())
        },
    }
}

proof fn lemma_mapped_stops(
    vg_name: Seq<char>,
    lv_name: Seq<char>,
    verified: Verified,
    entries: Seq<BlockEntry>,
    n: nat,
)
    requires
        n <= entries.len(),
        mapped_upto(vg_name, lv_name, verified, entries, n) is Err,
    ensures
        mapped_upto(vg_name, lv_name, verified, entries, entries.len()) == mapped_upto(
            vg_name,
            lv_name,
            verified,
            entries,
            n,
        ),
    decreases entries.len() - n,
{
    if n < entries.len() {
        lemma_mapped_stops(vg_name, lv_name, verified, entries, n + 1);
    }
}

fn volume_mapping_uuid(vg_uuid: &str, lv_uuid: &str) -> (r: String)
    ensures
        r@ == mapping_uuid(vg_uuid@, lv_uuid@),
{
    join3("LVM-", replace(vg_uuid, '-', "").as_str(), replace(lv_uuid, '-', "").as_str())
}

fn is_internal_layer(suffix: &str) -> (r: bool)
    ensures
        r == internal_layer(suffix@),
{
    same(suffix, "-real") || same(suffix, "-tpool") || same(suffix, "-tdata") || same(
        suffix,
        "-tmeta",
    ) || same(suffix, "-cdata") || same(suffix, "-cmeta") || same(suffix, "-cvol") || same(
        suffix,
        "-pool",
    )
}

fn is_owned_mapping(verified: &VerifiedLvm, uuid: &str) -> (r: bool)
    ensures
        r == owned_mapping(verified@, uuid@),
{
    let keys = verified.lvs.key_list();
    let ghost texts = verified.lvs.keys();
    let ghost map = verified@.lvs;
    let mut i: usize = 0;
    while i < keys.len()
        invariant
            i <= keys.len(),
            map == verified@.lvs,
            map == crate::table::entries(verified.lvs@),
            texts == verified.lvs.keys(),
            crate::text::strings(keys@) == texts,
            forall|k: Seq<char>| #[trigger] verified.lvs@.contains_key(k) <==> texts.contains(k),
            forall|j: int|
                0 <= j < i ==> !maps_volume(
                    uuid@,
                    mapping_uuid(verified@.vg_uuid, map[#[trigger] texts[j]]),
                ),
        decreases keys.len() - i,
    {
        let ghost key = texts[i as int];
        assert(key == keys@[i as int]@);
        assert(texts.contains(key));
        assert(verified.lvs@.contains_key(key));
        assert(map.contains_key(key));
        match verified.lvs.get(keys[i].as_str()) {
            Some(id) => {
                let base = volume_mapping_uuid(verified.vg_uuid.as_str(), id.as_str());
                let maps = same(uuid, base.as_str()) || match strip_prefix(uuid, base.as_str()) {
                    Some(suffix) => is_internal_layer(suffix),
                    None => false,
                };
                if maps {
                    return true;
                }
            },
            None => {},
        }
        i += 1;
    }
    assert forall|name: Seq<char>| #[trigger] map.contains_key(name) implies !maps_volume(
        uuid@,
        mapping_uuid(verified@.vg_uuid, map[name]),
    ) by {
        assert(verified.lvs@.contains_key(name));
        let j = texts.index_of(name);
        assert(texts[j] == name);
    }
    false
}

fn check_mapped(record: &BoundDeviceRecord, verified: &VerifiedLvm, entry: &BlockEntry, found: bool)
    -> (r: Result<bool, ProbeError>)
    ensures
        crate::sysfs::agrees(
            r,
            with_mapped(
                record.attachment.vg_name@,
                record.attachment.lv_name@,
                verified@,
                *entry,
                found,
            ),
        ),
{
    if !has_prefix(entry.name.as_str(), "dm-") {
        return Ok(found);
    }
    let name = match &entry.dm_name {
        Some(text) => trim(text.as_str()),
        None => return Err(ProbeError::Unreadable),
    };
    match mapped_volume_group(name) {
        Some(group) => {
            if !same(group.as_str(), record.attachment.vg_name.as_str()) {
                return Ok(found);
            }
        },
        None => return Ok(found),
    }
    let uuid = match &entry.dm_uuid {
        Some(text) => trim(text.as_str()),
        None => return Err(ProbeError::Unreadable),
    };
    if !is_owned_mapping(verified, uuid) {
        return Err(invalid("activated VG contains an unverified LV UUID"));
    }
    let expected = logical_volume_mapping(
        record.attachment.vg_name.as_str(),
        record.attachment.lv_name.as_str(),
    );
    if !same(name, expected.as_str()) {
        return Ok(found);
    }
    let target = volume_mapping_uuid(verified.vg_uuid.as_str(), verified.lv_uuid.as_str());
    if found || !same(uuid, target.as_str()) {
        return Err(invalid("activated LV UUID does not match preflight metadata"));
    }
    Ok(true)
}

fn verify_mappings(
    record: &BoundDeviceRecord,
    verified: &VerifiedLvm,
    tree: &BlockTree,
    require_target: bool,
) -> (r: Result<(), ProbeError>)
    ensures
        crate::sysfs::agrees(
            r,
            mappings_verified(*record, verified@, tree.entries@, require_target),
        ),
{
    let entries = &tree.entries;
    let ghost vg = record.attachment.vg_name@;
    let ghost lv = record.attachment.lv_name@;
    let mut found = false;
    let mut i: usize = 0;
    while i < entries.len()
        invariant
            i <= entries.len(),
            entries@ == tree.entries@,
            vg == record.attachment.vg_name@,
            lv == record.attachment.lv_name@,
            mapped_upto(vg, lv, verified@, entries@, i as nat) == Ok::<
                bool,
                crate::sysfs::Complaint,
            >(found),
        decreases entries.len() - i,
    {
        match check_mapped(record, verified, &entries[i], found) {
            Ok(f) => {
                found = f;
            },
            Err(e) => {
                proof {
                    lemma_mapped_stops(vg, lv, verified@, entries@, (i + 1) as nat);
                }
                return Err(e);
            },
        }
        i += 1;
    }
    if require_target && !found {
        return Err(invalid("verified LV was not activated"));
    }
    Ok(())
}

/// After an activation: every mapping of the group is a verified one, and the
/// configured logical volume is among them.
pub fn verify_mapping(record: &BoundDeviceRecord, verified: &VerifiedLvm, tree: &BlockTree) -> (r:
    Result<(), ProbeError>)
    ensures
        crate::sysfs::agrees(r, mappings_verified(*record, verified@, tree.entries@, true)),
{
    verify_mappings(record, verified, tree, true)
}

/// Before a rollback: every mapping of the group is a verified one.
pub fn verify_rollback_mapping(
    record: &BoundDeviceRecord,
    verified: &VerifiedLvm,
    tree: &BlockTree,
) -> (r: Result<(), ProbeError>)
    ensures
        crate::sysfs::agrees(r, mappings_verified(*record, verified@, tree.entries@, false)),
{
    verify_mappings(record, verified, tree, false)
}

// ---------- the devices of a recovery ----------

/// The names of the NBD device and its partitions among the first `n` entries.
pub open spec fn own_names(entries: Seq<BlockEntry>, nbd: Seq<char>, n: nat) -> Result<
    Set<Seq<char>>,
    crate::sysfs::Complaint,
>
    decreases n,
{
    if n == 0 {
        Ok(Set::empty())
    } else {
        match own_names(entries, nbd, (n - 1) as nat) {
            Err(c) => Err(c),
            Ok(before) => match crate::detach::on_device(entries, entries[n - 1].name@, nbd) {
                Err(c) => Err(c),
                Ok(own) => if own {
                    Ok(before.insert(entries[n - 1].name@))
                } else {
                    Ok(before)
                },
            },
        }
    }
}

/// The names of the first `n` devices below `/dev/`.
pub open spec fn device_names(devices: Seq<Candidate>, n: nat) -> Option<Set<Seq<char>>>
    decreases n,
{
    if n == 0 {
        Some(Set::empty())
    } else {
        match device_names(devices, (n - 1) as nat) {
            None => None,
            Some(before) => match crate::text::after_prefix(devices[n - 1].path, "/dev/"@) {
                None => None,
                Some(name) => Some(before.insert(name)),
            },
        }
    }
}

/// A persisted device is the kernel's device of that name, unmoved.
pub open spec fn device_unmoved(entries: Seq<BlockEntry>, nbd: Seq<char>, device: Candidate) -> Result<
    (),
    crate::sysfs::Complaint,
> {
    let moved = crate::sysfs::Complaint::Invalid(
        "current NBD geometry does not match the pre-activation identity"@,
    );
    let name = device.path.skip(5);
    match crate::sysfs::entry_named(entries, name) {
        None => Err(crate::sysfs::Complaint::Unreadable),
        Some(entry) => match crate::sysfs::entry_number(entry) {
            Err(c) => Err(c),
            Ok(number) => if number != device.number {
                Err(moved)
            } else {
                match crate::sysfs::sectors_of(entry.size) {
                    Err(c) => Err(c),
                    Ok(sectors) => if sectors != device.sectors {
                        Err(moved)
                    } else if name == nbd {
                        if device.start != 0 {
                            Err(moved)
                        } else {
                            Ok(())
                        }
                    } else {
                        match crate::sysfs::sectors_of(entry.start) {
                            Err(c) => Err(c),
                            Ok(start) => if start != device.start {
                                Err(moved)
                            } else {
                                match crate::sysfs::partition_of(entries, name, nbd) {
                                    Err(c) => Err(c),
                                    Ok(own) => if own {
                                        Ok(())
                                    } else {
                                        Err(moved)
                                    },
                                }
                            },
                        }
                    },
                }
            },
        },
    }
}

/// The first failure among the devices from `i` on.
pub open spec fn devices_unmoved(
    entries: Seq<BlockEntry>,
    nbd: Seq<char>,
    devices: Seq<Candidate>,
    i: int,
) -> Result<(), crate::sysfs::Complaint>
    decreases devices.len() - i,
{
    if i < 0 || i >= devices.len() {
        Ok(())
    } else {
        match device_unmoved(entries, nbd, devices[i]) {
            Err(c) => Err(c),
            Ok(()) => devices_unmoved(entries, nbd, devices, i + 1),
        }
    }
}

/// The kernel's NBD device and partitions are exactly the verified devices.
pub open spec fn devices_verified(
    device: Seq<char>,
    verified: Verified,
    entries: Seq<BlockEntry>,
    odd_names: bool,
) -> Result<(), crate::sysfs::Complaint> {
    match crate::text::after_prefix(device, "/dev/"@) {
        None => Err(crate::sysfs::Complaint::Invalid("invalid NBD path"@)),
        Some(nbd) => if odd_names {
            Err(crate::sysfs::Complaint::Invalid("invalid block name"@))
        } else {
            match own_names(entries, nbd, entries.len()) {
                Err(c) => Err(c),
                Ok(actual) => match device_names(verified.devices, verified.devices.len()) {
                    None => Err(
                        crate::sysfs::Complaint::Invalid("invalid persisted LVM device path"@),
                    ),
                    Some(expected) => if actual != expected {
                        Err(
                            crate::sysfs::Complaint::Invalid(
                                "current NBD devices do not match the pre-activation identity"@,
                            ),
                        )
                    } else {
                        devices_unmoved(entries, nbd, verified.devices, 0)
                    },
                },
            }
        },
    }
}

proof fn lemma_own_names_stop(entries: Seq<BlockEntry>, nbd: Seq<char>, n: nat)
    requires
        n <= entries.len(),
        own_names(entries, nbd, n) is Err,
    ensures
        own_names(entries, nbd, entries.len()) == own_names(entries, nbd, n),
    decreases entries.len() - n,
{
    if n < entries.len() {
        lemma_own_names_stop(entries, nbd, n + 1);
    }
}

proof fn lemma_device_names_stop(devices: Seq<Candidate>, n: nat)
    requires
        n <= devices.len(),
        device_names(devices, n) is None,
    ensures
        device_names(devices, devices.len()) is None,
    decreases devices.len() - n,
{
    if n < devices.len() {
        lemma_device_names_stop(devices, n + 1);
    }
}

proof fn lemma_device_names_prefix(devices: Seq<Candidate>, n: nat, i: int)
    requires
        0 <= i < n <= devices.len(),
        device_names(devices, n) is Some,
    ensures
        crate::text::after_prefix(devices[i].path, "/dev/"@) is Some,
    decreases n,
{
    if i < n - 1 {
        lemma_device_names_prefix(devices, (n - 1) as nat, i);
    }
}

fn gather_own_names(entries: &Vec<BlockEntry>, nbd: &str) -> (r: Result<Table<()>, ProbeError>)
    ensures
        match r {
            Ok(names) => own_names(entries@, nbd@, entries@.len()) == Ok::<
                Set<Seq<char>>,
                crate::sysfs::Complaint,
            >(names@.dom()),
            Err(e) => own_names(entries@, nbd@, entries@.len()) == Err::<
                Set<Seq<char>>,
                crate::sysfs::Complaint,
            >(e@),
        },
{
    let mut names: Table<()> = Table::new();
    let mut i: usize = 0;
    assert(names@.dom() =~= Set::<Seq<char>>::empty());
    while i < entries.len()
        invariant
            i <= entries.len(),
            own_names(entries@, nbd@, i as nat) == Ok::<Set<Seq<char>>, crate::sysfs::Complaint>(
                names@.dom(),
            ),
        decreases entries.len() - i,
    {
        let name = entries[i].name.as_str();
        let ghost had = names@.dom();
        let own = if same(name, nbd) {
            true
        } else {
            match is_nbd_partition(entries, name, nbd) {
                Ok(own) => own,
                Err(e) => {
                    proof {
                        lemma_own_names_stop(entries@, nbd@, (i + 1) as nat);
                    }
                    return Err(e);
                },
            }
        };
        if own {
            names.insert(name, ());
            assert(names@.dom() =~= had.insert(name@));
        }
        i += 1;
    }
    Ok(names)
}

fn gather_device_names(devices: &Vec<Device>) -> (r: Option<Table<()>>)
    ensures
        match r {
            Some(names) => device_names(candidates(devices@), devices@.len()) == Some(
                names@.dom(),
            ),
            None => device_names(candidates(devices@), devices@.len()) is None,
        },
{
    let ghost all = candidates(devices@);
    let mut names: Table<()> = Table::new();
    let mut i: usize = 0;
    assert(names@.dom() =~= Set::<Seq<char>>::empty());
    while i < devices.len()
        invariant
            i <= devices.len(),
            all == candidates(devices@),
            device_names(all, i as nat) == Some(names@.dom()),
        decreases devices.len() - i,
    {
        assert(all[i as int] == devices@[i as int]@);
        let ghost had = names@.dom();
        match strip_prefix(devices[i].path.as_str(), "/dev/") {
            Some(name) => {
                names.insert(name, ());
                assert(names@.dom() =~= had.insert(name@));
            },
            None => {
                proof {
                    lemma_device_names_stop(all, (i + 1) as nat);
                }
                return None;
            },
        }
        i += 1;
    }
    Some(names)
}

fn check_unmoved(entries: &Vec<BlockEntry>, nbd: &str, device: &Device) -> (r: Result<
    (),
    ProbeError,
>)
    requires
        crate::text::after_prefix(device.path@, "/dev/"@) is Some,
    ensures
        crate::sysfs::agrees(r, device_unmoved(entries@, nbd@, device@)),
{
    proof {
        reveal_strlit("/dev/");
    }
    let name = match strip_prefix(device.path.as_str(), "/dev/") {
        Some(name) => name,
        None => return Err(ProbeError::Unreadable),
    };
    assert(name@ =~= device.path@.skip(5));
    let entry = match find_entry(entries, name) {
        Some(entry) => entry,
        None => return Err(ProbeError::Unreadable),
    };
    let number = match number_of_entry(entry) {
        Ok(number) => number,
        Err(e) => return Err(e),
    };
    if number.0 != device.number.0 || number.1 != device.number.1 {
        return Err(invalid("current NBD geometry does not match the pre-activation identity"));
    }
    let sectors: u64 = match sector_count(&entry.size) {
        Ok(n) => n,
        Err(e) => return Err(e),
    };
    if sectors != device.sectors {
        return Err(invalid("current NBD geometry does not match the pre-activation identity"));
    }
    if same(name, nbd) {
        if device.start != 0 {
            return Err(invalid("current NBD geometry does not match the pre-activation identity"));
        }
        return Ok(());
    }
    let start: u64 = match sector_count(&entry.start) {
        Ok(n) => n,
        Err(e) => return Err(e),
    };
    if start != device.start {
        return Err(invalid("current NBD geometry does not match the pre-activation identity"));
    }
    match is_nbd_partition(entries, name, nbd) {
        Err(e) => Err(e),
        Ok(true) => Ok(()),
        Ok(false) => Err(
            invalid("current NBD geometry does not match the pre-activation identity"),
        ),
    }
}

/// Before a recovery: the kernel's NBD device and partitions are exactly the
/// verified devices, unmoved.
pub fn verify_recovery_device_identity(
    record: &BoundDeviceRecord,
    verified: &VerifiedLvm,
    tree: &BlockTree,
) -> (r: Result<(), ProbeError>)
    ensures
        crate::sysfs::agrees(
            r,
            devices_verified(record.device@, verified@, tree.entries@, tree.odd_names),
        ),
{
    let entries = &tree.entries;
    let nbd = match strip_prefix(record.device.as_str(), "/dev/") {
        Some(nbd) => nbd,
        None => return Err(invalid("invalid NBD path")),
    };
    if tree.odd_names {
        return Err(invalid("invalid block name"));
    }
    let actual = match gather_own_names(entries, nbd) {
        Ok(names) => names,
        Err(e) => return Err(e),
    };
    let expected = match gather_device_names(&verified.devices) {
        Some(names) => names,
        None => return Err(invalid("invalid persisted LVM device path")),
    };
    if !same_keys(&actual, &expected) {
        return Err(invalid("current NBD devices do not match the pre-activation identity"));
    }
    let ghost all = verified@.devices;
    let mut i: usize = 0;
    while i < verified.devices.len()
        invariant
            i <= verified.devices.len(),
            entries@ == tree.entries@,
            all == candidates(verified.devices@),
            all == verified@.devices,
            device_names(all, all.len()) is Some,
            devices_verified(record.device@, verified@, tree.entries@, tree.odd_names)
                == devices_unmoved(entries@, nbd@, all, i as int),
        decreases verified.devices.len() - i,
    {
        proof {
            assert(all[i as int] == verified.devices@[i as int]@);
            lemma_device_names_prefix(all, all.len(), i as int);
        }
        match check_unmoved(entries, nbd, &verified.devices[i]) {
            Ok(()) => {},
            Err(e) => return Err(e),
        }
        i += 1;
    }
    Ok(())
}

/// Whether both the devices and the mappings of a recovery are the verified
/// ones.
pub open spec fn recovery_verified(
    record: BoundDeviceRecord,
    verified: Verified,
    entries: Seq<BlockEntry>,
    odd_names: bool,
    require_target: bool,
) -> Result<(), crate::sysfs::Complaint> {
    match devices_verified(record.device@, verified, entries, odd_names) {
        Err(c) => Err(c),
        Ok(()) => mappings_verified(record, verified, entries, require_target),
    }
}

/// Before a recovery deactivates the group: the devices and the mappings are
/// the verified ones, with the configured logical volume among them.
pub fn verify_recovery_mapping(
    record: &BoundDeviceRecord,
    verified: &VerifiedLvm,
    tree: &BlockTree,
) -> (r: Result<(), ProbeError>)
    ensures
        crate::sysfs::agrees(
            r,
            recovery_verified(*record, verified@, tree.entries@, tree.odd_names, true),
        ),
{
    match verify_recovery_device_identity(record, verified, tree) {
        Ok(()) => verify_mappings(record, verified, tree, true),
        Err(e) => Err(e),
    }
}

/// The same where the activation may have been left half done.
pub fn verify_recovery_rollback_mapping(
    record: &BoundDeviceRecord,
    verified: &VerifiedLvm,
    tree: &BlockTree,
) -> (r: Result<(), ProbeError>)
    ensures
        crate::sysfs::agrees(
            r,
            recovery_verified(*record, verified@, tree.entries@, tree.odd_names, false),
        ),
{
    match verify_recovery_device_identity(record, verified, tree) {
        Ok(()) => verify_mappings(record, verified, tree, false),
        Err(e) => Err(e),
    }
}

// ---------- permission to change anything ----------

/// Nothing of the attachment may be live before the preflight.
pub fn check_inactive(observed: &DetachObservation) -> (r: Result<(), ProbeError>)
    ensures
        crate::sysfs::passes(
            r,
            if observed.is_clear() {
                None
            } else {
                Some("LVM preflight found an existing mount, mapping, or holder"@)
            },
        ),
{
    if observed.clear() {
        Ok(())
    } else {
        Err(invalid("LVM preflight found an existing mount, mapping, or holder"))
    }
}

/// The read-only report must have succeeded without a warning.
pub fn check_report(success: bool, silent: bool) -> (r: Result<(), ProbeError>)
    ensures
        crate::sysfs::passes(
            r,
            if success && silent {
                None
            } else {
                Some("LVM read-only report failed or reported warnings"@)
            },
        ),
{
    if success && silent {
        Ok(())
    } else {
        Err(invalid("LVM read-only report failed or reported warnings"))
    }
}

/// The complaint about activating the verified group: the metadata, the
/// devices and the idle state were read once more.
pub open spec fn activation_complaint(
    verified: Verified,
    fresh: Verified,
    devices: Seq<Candidate>,
    observed: DetachObservation,
) -> Option<Seq<char>> {
    if fresh != verified {
        Some("LVM metadata or candidate identity changed before activation"@)
    } else if devices != verified.devices {
        Some("LVM candidate kernel identity changed before activation"@)
    } else if !observed.is_clear() {
        Some("LVM preflight found an existing mount, mapping, or holder"@)
    } else {
        None
    }
}

/// Whether the verified group may be activated.
pub fn authorize_activation(
    verified: &VerifiedLvm,
    fresh: &VerifiedLvm,
    devices: &Vec<Device>,
    observed: &DetachObservation,
) -> (r: Result<(), ProbeError>)
    ensures
        crate::sysfs::passes(
            r,
            activation_complaint(verified@, fresh@, candidates(devices@), *observed),
        ),
{
    if !fresh.matches(verified) {
        return Err(invalid("LVM metadata or candidate identity changed before activation"));
    }
    if !same_devices(devices, &verified.devices) {
        return Err(invalid("LVM candidate kernel identity changed before activation"));
    }
    check_inactive(observed)
}

/// Every device node still leads to the verified device.
pub open spec fn nodes_kept(devices: Seq<Candidate>, nodes: Seq<Option<(u32, u32)>>) -> bool {
    forall|i: int| 0 <= i < devices.len() ==> nodes[i] == Some((#[trigger] devices[i]).number)
}

/// Whether every device node still leads to the verified device. `nodes` holds
/// the number behind each device's path, if that is a block device.
pub fn check_nodes(verified: &VerifiedLvm, nodes: &Vec<Option<(u32, u32)>>) -> (r: bool)
    requires
        nodes@.len() == verified.devices@.len(),
    ensures
        r == nodes_kept(verified@.devices, nodes@),
{
    let ghost all = verified@.devices;
    let mut i: usize = 0;
    while i < nodes.len()
        invariant
            i <= nodes.len(),
            nodes@.len() == verified.devices@.len(),
            all == candidates(verified.devices@),
            forall|k: int| 0 <= k < i ==> nodes@[k] == Some((#[trigger] all[k]).number),
        decreases nodes.len() - i,
    {
        assert(all[i as int] == verified.devices@[i as int]@);
        let number = verified.devices[i].number;
        let kept = match nodes[i] {
            Some(node) => node.0 == number.0 && node.1 == number.1,
            None => false,
        };
        if !kept {
            assert(nodes@[i as int] != Some(all[i as int].number));
            return false;
        }
        i += 1;
    }
    true
}

// ---------- laws ----------

proof fn lemma_pairs_disjoint(list: Seq<Candidate>, i: int, j: int, k: int)
    requires
        0 <= i < j <= k < list.len(),
        pair_complaint(list, i, j) is None,
    ensures
        list[i].start >= list[k].start + list[k].sectors || list[k].start >= list[i].start
            + list[i].sectors,
    decreases k - j,
{
    if j < k {
        lemma_pairs_disjoint(list, i, j + 1, k);
    }
}

proof fn lemma_ranges_from(list: Seq<Candidate>, a: int, i: int)
    requires
        0 <= a <= i < list.len(),
        ranges_complaint(list, a) is None,
    ensures
        ranges_complaint(list, i) is None,
    decreases i - a,
{
    if a < i {
        lemma_ranges_from(list, a + 1, i);
    }
}

/// Devices whose labels pass never share a sector.
pub proof fn labelled_devices_never_overlap(list: Seq<Candidate>, i: int, j: int)
    requires
        ranges_complaint(list, 0) is None,
        0 <= i < j < list.len(),
    ensures
        list[i].start + list[i].sectors <= list[j].start || list[j].start + list[j].sectors
            <= list[i].start,
        list[i].sectors > 0,
{
    lemma_ranges_from(list, 0, i);
    lemma_pairs_disjoint(list, i, i + 1, j);
}

/// A verified identity is that of the one reported group, of the configured
/// name, with the configured logical volume; its physical volumes are exactly
/// the labels that were read from the devices.
pub proof fn verified_groups_are_the_configured_ones(
    len: nat,
    report: Option<Vec<Group>>,
    devices: Seq<Candidate>,
    labels: Map<Seq<char>, Seq<char>>,
    vg_name: Seq<char>,
    lv_name: Seq<char>,
)
    requires
        validated(len, report, devices, labels, vg_name, lv_name) is Ok,
    ensures
        ({
            let verified = validated(len, report, devices, labels, vg_name, lv_name)->Ok_0;
            let groups = report->Some_0@;
            &&& report is Some
            &&& groups.len() == 1
            &&& groups[0].vg@.len() == 1
            &&& groups[0].vg@[0].vg_name@ == vg_name
            &&& vg_whole(groups[0].vg@[0])
            &&& verified.devices == devices
            &&& verified.labels == labels
            &&& verified.vg_uuid == groups[0].vg@[0].vg_uuid@
            &&& lvm_uuid(verified.vg_uuid)
            &&& verified.lvs.contains_key(lv_name)
            &&& verified.lvs[lv_name] == verified.lv_uuid
            &&& pvs_upto(
                devices,
                labels,
                verified.vg_uuid,
                groups[0].pv@,
                groups[0].pv@.len(),
            ) == Ok::<Map<Seq<char>, Seq<char>>, crate::sysfs::Complaint>(labels)
        }),
{
    let groups = report->Some_0@;
    let n = groups.len();
    if n >= 2 {
        let had = groups_upto(devices, labels, vg_name, lv_name, groups, (n - 1) as nat);
        assert(had is Ok);
        assert(had->Ok_0 is Some) by {
            let shorter = groups_upto(devices, labels, vg_name, lv_name, groups, (n - 2) as nat);
            assert(shorter is Ok);
        }
    } else {
        reveal_with_fuel(groups_upto, 2);
    }
}

proof fn lemma_pv_labels(
    devices: Seq<Candidate>,
    labels: Map<Seq<char>, Seq<char>>,
    vg_id: Seq<char>,
    pvs: Seq<Pv>,
    n: nat,
    i: int,
)
    requires
        0 <= i < n <= pvs.len(),
        pvs_upto(devices, labels, vg_id, pvs, n) is Ok,
    ensures
        pvs[i].number matches Some(number) && device_numbered(devices, number, 0) matches Some(d)
            && labels.contains_key(d.path) && labels[d.path] == pvs[i].pv_uuid@ && pvs[i].vg_uuid@
            == vg_id,
    decreases n,
{
    if i < n - 1 {
        lemma_pv_labels(devices, labels, vg_id, pvs, (n - 1) as nat, i);
    }
}

/// No physical volume of a verified group lies outside the candidate devices,
/// and each bears the label that was read from its device.
pub proof fn reported_volumes_lie_on_the_candidates(
    len: nat,
    report: Option<Vec<Group>>,
    devices: Seq<Candidate>,
    labels: Map<Seq<char>, Seq<char>>,
    vg_name: Seq<char>,
    lv_name: Seq<char>,
    i: int,
)
    requires
        validated(len, report, devices, labels, vg_name, lv_name) is Ok,
        0 <= i < report->Some_0@[0].pv@.len(),
    ensures
        ({
            let pv = report->Some_0@[0].pv@[i];
            pv.number matches Some(number) && device_numbered(devices, number, 0) matches Some(d)
                && labels.contains_key(d.path) && labels[d.path] == pv.pv_uuid@
        }),
{
    verified_groups_are_the_configured_ones(len, report, devices, labels, vg_name, lv_name);
    let verified = validated(len, report, devices, labels, vg_name, lv_name)->Ok_0;
    let pvs = report->Some_0@[0].pv@;
    lemma_pv_labels(devices, labels, verified.vg_uuid, pvs, pvs.len(), i);
}

proof fn lemma_mapped_each(
    vg_name: Seq<char>,
    lv_name: Seq<char>,
    verified: Verified,
    entries: Seq<BlockEntry>,
    n: nat,
    i: int,
)
    requires
        0 <= i < n <= entries.len(),
        mapped_upto(vg_name, lv_name, verified, entries, n) is Ok,
    ensures
        mapped_upto(vg_name, lv_name, verified, entries, i as nat) is Ok,
        with_mapped(
            vg_name,
            lv_name,
            verified,
            entries[i],
            mapped_upto(vg_name, lv_name, verified, entries, i as nat)->Ok_0,
        ) is Ok,
    decreases n,
{
    if i < n - 1 {
        lemma_mapped_each(vg_name, lv_name, verified, entries, (n - 1) as nat, i);
    }
}

/// Verified mappings hold no stranger: every mapping that tells the recorded
/// group belongs to a verified logical volume.
pub proof fn verified_mappings_hold_no_stranger(
    record: BoundDeviceRecord,
    verified: Verified,
    entries: Seq<BlockEntry>,
    require_target: bool,
    i: int,
)
    requires
        mappings_verified(record, verified, entries, require_target) is Ok,
        0 <= i < entries.len(),
        crate::text::starts_with(entries[i].name@, "dm-"@),
        entries[i].dm_name is Some,
        crate::detach::mapped_group(crate::text::trimmed(entries[i].dm_name->Some_0@)) == Some(
            record.attachment.vg_name@,
        ),
    ensures
        entries[i].dm_uuid matches Some(id) && owned_mapping(verified, crate::text::trimmed(id@)),
{
    lemma_mapped_each(
        record.attachment.vg_name@,
        record.attachment.lv_name@,
        verified,
        entries,
        entries.len(),
        i,
    );
}

/// Devices that share no sector pass: ranges that are neither empty nor beyond
/// every number, and of which each ends before or where the other begins, raise
/// no complaint.
pub proof fn disjoint_devices_pass(list: Seq<Candidate>)
    requires
        forall|i: int|
            0 <= i < list.len() ==> (#[trigger] list[i]).sectors > 0 && list[i].start
                + list[i].sectors <= u64::MAX,
        forall|i: int, j: int|
            #![trigger list[i], list[j]]
            0 <= i < j < list.len() ==> list[i].start + list[i].sectors <= list[j].start
                || list[j].start + list[j].sectors <= list[i].start,
    ensures
        ranges_complaint(list, 0) is None,
{
    lemma_disjoint_from(list, 0);
}

proof fn lemma_disjoint_from(list: Seq<Candidate>, i: int)
    requires
        0 <= i,
        forall|k: int|
            0 <= k < list.len() ==> (#[trigger] list[k]).sectors > 0 && list[k].start
                + list[k].sectors <= u64::MAX,
        forall|k: int, j: int|
            #![trigger list[k], list[j]]
            0 <= k < j < list.len() ==> list[k].start + list[k].sectors <= list[j].start
                || list[j].start + list[j].sectors <= list[k].start,
    ensures
        ranges_complaint(list, i) is None,
    decreases list.len() - i,
{
    if i < list.len() {
        lemma_disjoint_pairs(list, i, i + 1);
        lemma_disjoint_from(list, i + 1);
    }
}

proof fn lemma_disjoint_pairs(list: Seq<Candidate>, i: int, j: int)
    requires
        0 <= i < j,
        forall|k: int|
            0 <= k < list.len() ==> (#[trigger] list[k]).sectors > 0 && list[k].start
                + list[k].sectors <= u64::MAX,
        forall|k: int, m: int|
            #![trigger list[k], list[m]]
            0 <= k < m < list.len() ==> list[k].start + list[k].sectors <= list[m].start
                || list[m].start + list[m].sectors <= list[k].start,
    ensures
        pair_complaint(list, i, j) is None,
    decreases list.len() - j,
{
    if j < list.len() {
        assert(list[i].sectors > 0 && list[j].sectors > 0);
        lemma_disjoint_pairs(list, i, j + 1);
    }
}

/// A device carries weight in the comparison if and only if it is labelled.
pub proof fn labelled_devices_are_those_with_a_label(
    devices: Seq<Candidate>,
    labels: Map<Seq<char>, Seq<char>>,
    n: nat,
    d: Candidate,
)
    requires
        n <= devices.len(),
    ensures
        labelled(devices, labels, n).contains(d) <==> labels.contains_key(d.path)
            && devices.take(n as int).contains(d),
        labelled(devices, labels, n).len() <= n,
    decreases n,
{
    let some = labelled(devices, labels, n);
    let all = devices.take(n as int);
    if n > 0 {
        let m = (n - 1) as nat;
        labelled_devices_are_those_with_a_label(devices, labels, m, d);
        let fewer = labelled(devices, labels, m);
        let front = devices.take(m as int);
        assert(all =~= front.push(devices[m as int]));
        assert(all.contains(d) <==> front.contains(d) || d == devices[m as int]) by {
            if front.contains(d) {
                let k = front.index_of(d);
                assert(all[k] == d);
            }
            if d == devices[m as int] {
                assert(all[m as int] == d);
            }
            if all.contains(d) {
                let k = all.index_of(d);
                if k < m {
                    assert(front[k] == d);
                }
            }
        }
        if labels.contains_key(devices[m as int].path) {
            assert(some.contains(d) <==> fewer.contains(d) || d == devices[m as int]) by {
                if fewer.contains(d) {
                    let k = fewer.index_of(d);
                    assert(some[k] == d);
                }
                if d == devices[m as int] {
                    assert(some[fewer.len() as int] == d);
                }
                if some.contains(d) {
                    let k = some.index_of(d);
                    if k < fewer.len() {
                        assert(fewer[k] == d);
                    }
                }
            }
        }
    } else {
        assert(all =~= Seq::<Candidate>::empty());
    }
}

// ---------- what is sound passes ----------

/// Seven runs of letters and digits of the right lengths, joined by hyphens, are
/// an LVM identifier, and every LVM identifier is made that way.
pub proof fn lvm_identifiers_are_seven_runs(parts: Seq<Seq<char>>, other: Seq<char>)
    requires
        parts.len() == 7,
        parts[0].len() == 6,
        parts[6].len() == 6,
        forall|i: int| 0 < i < 6 ==> (#[trigger] parts[i]).len() == 4,
        forall|i: int, k: int|
            0 <= i < 7 && 0 <= k < parts[i].len() ==> crate::text::is_alnum(
                #[trigger] parts[i][k],
            ),
    ensures
        lvm_uuid(crate::text::listed(parts, '-')),
        lvm_uuid(other) ==> {
            let found = crate::text::split(other, '-');
            found.len() == 7 && found[0].len() == 6 && found[6].len() == 6 && forall|i: int|
                0 < i < 6 ==> (#[trigger] found[i]).len() == 4
        },
{
    assert forall|i: int| 0 <= i < parts.len() implies !(#[trigger] parts[i]).contains('-') by {
        if parts[i].contains('-') {
            let k = parts[i].index_of('-');
            assert(crate::text::is_alnum(parts[i][k]));
        }
    }
    crate::text::lists_are_split_into_their_items(parts, '-');
}

/// A layout is the set of its words, whatever their order.
pub proof fn layouts_are_the_set_of_their_words(words: Seq<Seq<char>>)
    requires
        words.len() > 0,
        words.no_duplicates(),
        forall|i: int| 0 <= i < words.len() ==> layout_word(#[trigger] words[i]),
    ensures
        layout_words(crate::text::listed(words, ',')) == Some(words.to_set()),
{
    assert forall|i: int| 0 <= i < words.len() implies !(#[trigger] words[i]).contains(',') by {
        assert(layout_word(words[i]));
        if words[i].contains(',') {
            let k = words[i].index_of(',');
            assert(words[i][k] == ',');
        }
    }
    crate::text::lists_are_split_into_their_items(words, ',');
    lemma_layout_is_set(words, words.len());
    assert(words.take(words.len() as int) =~= words);
}

proof fn lemma_layout_is_set(words: Seq<Seq<char>>, n: nat)
    requires
        n <= words.len(),
        words.no_duplicates(),
        forall|i: int| 0 <= i < words.len() ==> layout_word(#[trigger] words[i]),
    ensures
        layout_upto(words, n) == Some(words.take(n as int).to_set()),
    decreases n,
{
    if n == 0 {
        assert(words.take(0).to_set() =~= Set::<Seq<char>>::empty());
    } else {
        lemma_layout_is_set(words, (n - 1) as nat);
        let w = words[n - 1];
        assert(layout_word(w));
        assert forall|i: int| 0 <= i < w.len() implies !crate::text::is_white(#[trigger] w[i]) by {
            assert(crate::text::is_lower(w[i]) || crate::text::is_digit(w[i]) || w[i] == '_' || w[i]
                == '-');
        }
        crate::text::line_feeds_are_trimmed(w);
        let before = words.take(n - 1);
        let after = words.take(n as int);
        assert(after =~= before.push(w));
        assert(!before.to_set().contains(w)) by {
            if before.contains(w) {
                let k = before.index_of(w);
                assert(words[k] == w);
            }
        }
        assert(after.to_set() =~= before.to_set().insert(w)) by {
            assert forall|x: Seq<char>| #[trigger] after.to_set().contains(x)
                <==> before.to_set().insert(w).contains(x) by {
                if after.contains(x) {
                    let k = after.index_of(x);
                    if k < n - 1 {
                        assert(before[k] == x);
                    }
                }
                if before.contains(x) {
                    let k = before.index_of(x);
                    assert(after[k] == x);
                }
                assert(after[n - 1] == w);
            }
        }
    }
}

/// The lines of a report: key and value with an equals sign between them.
pub open spec fn field_lines(keys: Seq<Seq<char>>, values: Seq<Seq<char>>) -> Seq<Seq<char>> {
    Seq::new(keys.len(), |i: int| keys[i] + seq!['='] + values[i])
}

/// A report of fields is read as the values that it gives to its keys.
pub proof fn fields_are_read_as_they_are_set(
    keys: Seq<Seq<char>>,
    values: Seq<Seq<char>>,
    n: nat,
)
    requires
        keys.len() == values.len(),
        n <= keys.len(),
        keys.no_duplicates(),
        forall|i: int| 0 <= i < keys.len() ==> !(#[trigger] keys[i]).contains('='),
    ensures
        label_fields(field_lines(keys, values), n) is Ok,
        ({
            let fields = label_fields(field_lines(keys, values), n)->Ok_0;
            &&& forall|k: Seq<char>| #[trigger]
                fields.contains_key(k) <==> keys.take(n as int).contains(k)
            &&& forall|i: int| 0 <= i < n ==> fields[#[trigger] keys[i]] == values[i]
        }),
    decreases n,
{
    reveal_strlit("=");
    assert("="@ =~= seq!['=']);
    let lines = field_lines(keys, values);
    if n == 0 {
        assert(keys.take(0) =~= Seq::<Seq<char>>::empty());
    } else {
        let m = (n - 1) as nat;
        fields_are_read_as_they_are_set(keys, values, m);
        let before = label_fields(lines, m)->Ok_0;
        let key = keys[m as int];
        crate::text::texts_are_cut_at_the_first_mark(key, '=', values[m as int]);
        let front = keys.take(m as int);
        let all = keys.take(n as int);
        assert(all =~= front.push(key));
        assert(!front.contains(key)) by {
            if front.contains(key) {
                let k = front.index_of(key);
                assert(keys[k] == key);
            }
        }
        let fields = before.insert(key, values[m as int]);
        assert(label_fields(lines, n) == Ok::<
            Map<Seq<char>, Seq<char>>,
            crate::sysfs::Complaint,
        >(fields));
        assert forall|k: Seq<char>| #[trigger] fields.contains_key(k) <==> all.contains(k) by {
            if front.contains(k) {
                let i = front.index_of(k);
                assert(all[i] == k);
            }
            if all.contains(k) {
                let i = all.index_of(k);
                if i < m {
                    assert(front[i] == k);
                }
            }
            assert(all[m as int] == key);
        }
        assert forall|i: int| 0 <= i < n implies fields[#[trigger] keys[i]] == values[i] by {
            if i < m {
                assert(keys[i] != key);
            }
        }
    }
}

/// A device that reports an LVM member with a valid identifier bears that label,
/// unless it bears a partition table too; one that reports another type bears
/// none.
pub proof fn labels_say_what_they_report(fields: Map<Seq<char>, Seq<char>>)
    requires
        fields.contains_key("TYPE"@),
    ensures
        fields["TYPE"@] == "LVM2_member"@ && !fields.contains_key("PTTYPE"@) && fields.contains_key(
            "UUID"@,
        ) && lvm_uuid(fields["UUID"@]) ==> label_said(fields) == Ok::<
            Option<Seq<char>>,
            crate::sysfs::Complaint,
        >(Some(fields["UUID"@])),
        fields["TYPE"@] != "LVM2_member"@ && fields["TYPE"@].len() > 0 ==> label_said(fields)
            == Ok::<Option<Seq<char>>, crate::sysfs::Complaint>(None),
        label_said(fields) matches Ok(Some(id)) ==> fields["TYPE"@] == "LVM2_member"@
            && fields.contains_key("UUID"@) && fields["UUID"@] == id && lvm_uuid(id)
            && !fields.contains_key("PTTYPE"@),
{
}

/// The labels of devices are kept by path: each label that was read stands for
/// the device that it was read from, and no other device has one.
pub proof fn labels_are_kept_by_path(
    devices: Seq<Candidate>,
    probed: Seq<Option<Seq<char>>>,
    n: nat,
    i: int,
)
    requires
        n <= devices.len(),
        probed.len() == devices.len(),
        0 <= i < n,
        forall|a: int, b: int|
            0 <= a < b < devices.len() ==> (#[trigger] devices[a]).path != (
            #[trigger] devices[b]).path,
        forall|a: int, b: int|
            0 <= a < b < probed.len() && (#[trigger] probed[a]) is Some ==> probed[a]
                != #[trigger] probed[b],
    ensures
        labels_upto(devices, probed, n) is Ok,
        ({
            let labels = labels_upto(devices, probed, n)->Ok_0;
            &&& labels.contains_key(devices[i].path) <==> probed[i] is Some
            &&& probed[i] is Some ==> labels[devices[i].path] == probed[i]->Some_0
        }),
    decreases n,
{
    let m = (n - 1) as nat;
    lemma_labels_read(devices, probed, m);
    let before = labels_upto(devices, probed, m)->Ok_0;
    if i < m {
        labels_are_kept_by_path(devices, probed, m, i);
    } else {
        if before.contains_key(devices[i].path) {
            let k = choose|k: int| 0 <= k < m && (#[trigger] devices[k]).path == devices[i].path;
            assert(devices[k].path == devices[i].path);
        }
    }
}

proof fn lemma_labels_read(devices: Seq<Candidate>, probed: Seq<Option<Seq<char>>>, n: nat)
    requires
        n <= devices.len(),
        probed.len() == devices.len(),
        forall|a: int, b: int|
            0 <= a < b < probed.len() && (#[trigger] probed[a]) is Some ==> probed[a]
                != #[trigger] probed[b],
    ensures
        labels_upto(devices, probed, n) is Ok,
        forall|p: Seq<char>| #[trigger]
            labels_upto(devices, probed, n)->Ok_0.contains_key(p) ==> exists|k: int|
                0 <= k < n && (#[trigger] devices[k]).path == p,
    decreases n,
{
    if n > 0 {
        let m = (n - 1) as nat;
        lemma_labels_read(devices, probed, m);
        let before = labels_upto(devices, probed, m)->Ok_0;
        let after = labels_upto(devices, probed, n)->Ok_0;
        assert forall|p: Seq<char>| #[trigger] after.contains_key(p) implies exists|k: int|
            0 <= k < n && (#[trigger] devices[k]).path == p by {
            if before.contains_key(p) {
                let k = choose|k: int| 0 <= k < m && (#[trigger] devices[k]).path == p;
                assert(devices[k].path == p);
            } else {
                assert(devices[m as int].path == p);
            }
        }
    }
}

/// Devices with different numbers are found by their number.
pub proof fn devices_are_found_by_number(devices: Seq<Candidate>, k: int)
    requires
        0 <= k < devices.len(),
        forall|i: int| 0 <= i < k ==> (#[trigger] devices[i]).number != devices[k].number,
    ensures
        device_numbered(devices, devices[k].number, 0) == Some(devices[k]),
{
    lemma_numbered_from(devices, k, 0);
}

proof fn lemma_numbered_from(devices: Seq<Candidate>, k: int, i: int)
    requires
        0 <= i <= k < devices.len(),
        forall|j: int| 0 <= j < k ==> (#[trigger] devices[j]).number != devices[k].number,
    ensures
        device_numbered(devices, devices[k].number, i) == Some(devices[k]),
    decreases k - i,
{
    if i < k {
        lemma_numbered_from(devices, k, i + 1);
    }
}

/// The device is a labelled one among the first `n`.
spec fn comes_from(
    devices: Seq<Candidate>,
    labels: Map<Seq<char>, Seq<char>>,
    n: nat,
    c: Candidate,
) -> bool {
    exists|k: int|
        0 <= k < n && c == #[trigger] devices[k] && labels.contains_key(devices[k].path)
}

proof fn lemma_labelled_come_from(
    devices: Seq<Candidate>,
    labels: Map<Seq<char>, Seq<char>>,
    n: nat,
    i: int,
)
    requires
        n <= devices.len(),
        0 <= i < labelled(devices, labels, n).len(),
    ensures
        comes_from(devices, labels, n, labelled(devices, labels, n)[i]),
    decreases n,
{
    let m = (n - 1) as nat;
    let fewer = labelled(devices, labels, m);
    let c = labelled(devices, labels, n)[i];
    if i < fewer.len() {
        lemma_labelled_come_from(devices, labels, m, i);
        let k = choose|k: int|
            0 <= k < m && fewer[i] == #[trigger] devices[k] && labels.contains_key(devices[k].path);
        assert(c == devices[k]);
    } else {
        assert(c == devices[m as int]);
    }
}

proof fn lemma_labelled_disjoint(
    devices: Seq<Candidate>,
    labels: Map<Seq<char>, Seq<char>>,
    n: nat,
    i: int,
    j: int,
)
    requires
        n <= devices.len(),
        forall|i: int, j: int|
            #![trigger devices[i], devices[j]]
            0 <= i < j < devices.len() && labels.contains_key(devices[i].path)
                && labels.contains_key(devices[j].path) ==> devices[i].start + devices[i].sectors
                <= devices[j].start || devices[j].start + devices[j].sectors <= devices[i].start,
        0 <= i < j < labelled(devices, labels, n).len(),
    ensures
        ({
            let list = labelled(devices, labels, n);
            list[i].start + list[i].sectors <= list[j].start || list[j].start + list[j].sectors
                <= list[i].start
        }),
    decreases n,
{
    let m = (n - 1) as nat;
    let fewer = labelled(devices, labels, m);
    let list = labelled(devices, labels, n);
    if j < fewer.len() {
        lemma_labelled_disjoint(devices, labels, m, i, j);
    } else {
        lemma_labelled_come_from(devices, labels, m, i);
        let k = choose|k: int|
            0 <= k < m && fewer[i] == #[trigger] devices[k] && labels.contains_key(devices[k].path);
        assert(devices[k] == list[i]);
        assert(devices[m as int] == list[j]);
    }
}

/// A physical volume of the report that lies on the device at `k` and bears its
/// label.
pub open spec fn pv_sound(
    devices: Seq<Candidate>,
    labels: Map<Seq<char>, Seq<char>>,
    vg_id: Seq<char>,
    pv: Pv,
    k: int,
) -> bool {
    &&& 0 <= k < devices.len()
    &&& pv.number == Some(devices[k].number)
    &&& lvm_uuid(pv.pv_uuid@)
    &&& crate::text::starts_with(pv.pv_name@, "/dev/"@)
    &&& pv.vg_uuid@ == vg_id
    &&& pv.pv_missing@ == "0"@
    &&& pv.pv_duplicate@ == "0"@
    &&& labels.contains_key(devices[k].path)
    &&& labels[devices[k].path] == pv.pv_uuid@
}

proof fn lemma_pvs_pass(
    devices: Seq<Candidate>,
    labels: Map<Seq<char>, Seq<char>>,
    vg_id: Seq<char>,
    pvs: Seq<Pv>,
    at: Seq<int>,
    n: nat,
)
    requires
        n <= pvs.len(),
        at.len() == pvs.len(),
        forall|i: int, j: int|
            #![trigger devices[i], devices[j]]
            0 <= i < j < devices.len() ==> devices[i].number != devices[j].number
                && devices[i].path != devices[j].path,
        forall|i: int|
            0 <= i < pvs.len() ==> pv_sound(devices, labels, vg_id, #[trigger] pvs[i], at[i]),
        forall|i: int, j: int|
            #![trigger pvs[i], pvs[j]]
            0 <= i < j < pvs.len() ==> pvs[i].pv_uuid@ != pvs[j].pv_uuid@ && at[i] != at[j],
    ensures
        pvs_upto(devices, labels, vg_id, pvs, n) is Ok,
        ({
            let seen = pvs_upto(devices, labels, vg_id, pvs, n)->Ok_0;
            &&& forall|p: Seq<char>| #[trigger]
                seen.contains_key(p) ==> exists|i: int|
                    0 <= i < n && p == devices[at[i]].path && seen[p] == (
                    #[trigger] pvs[i]).pv_uuid@
            &&& forall|i: int|
                0 <= i < n ==> seen.contains_key(devices[at[i]].path) && seen[devices[at[i]].path]
                    == (#[trigger] pvs[i]).pv_uuid@
        }),
    decreases n,
{
    if n > 0 {
        let m = (n - 1) as nat;
        lemma_pvs_pass(devices, labels, vg_id, pvs, at, m);
        let seen = pvs_upto(devices, labels, vg_id, pvs, m)->Ok_0;
        let pv = pvs[m as int];
        let k = at[m as int];
        assert(pv_sound(devices, labels, vg_id, pv, k));
        assert forall|i: int| 0 <= i < k implies (#[trigger] devices[i]).number
            != devices[k].number by {}
        devices_are_found_by_number(devices, k);
        let path = devices[k].path;
        assert(!seen.contains_key(path)) by {
            if seen.contains_key(path) {
                let i = choose|i: int|
                    0 <= i < m && path == devices[at[i]].path && seen[path] == (
                    #[trigger] pvs[i]).pv_uuid@;
                assert(pvs[i].pv_uuid@ != pv.pv_uuid@ && at[i] != k);
                assert(pv_sound(devices, labels, vg_id, pvs[i], at[i]));
                assert(devices[at[i]].path == devices[k].path);
                if at[i] < k {
                    assert(devices[at[i]].path != devices[k].path);
                } else {
                    assert(devices[k].path != devices[at[i]].path);
                }
            }
        }
        assert(!has_text(seen, pv.pv_uuid@)) by {
            if has_text(seen, pv.pv_uuid@) {
                let p = choose|p: Seq<char>| #[trigger] seen.contains_key(p) && seen[p]
                    == pv.pv_uuid@;
                let i = choose|i: int|
                    0 <= i < m && p == devices[at[i]].path && seen[p] == (
                    #[trigger] pvs[i]).pv_uuid@;
                assert(pvs[i].pv_uuid@ != pv.pv_uuid@);
            }
        }
        let after = seen.insert(path, pv.pv_uuid@);
        assert(pvs_upto(devices, labels, vg_id, pvs, n) == Ok::<
            Map<Seq<char>, Seq<char>>,
            crate::sysfs::Complaint,
        >(after));
        assert forall|p: Seq<char>| #[trigger] after.contains_key(p) implies exists|i: int|
            0 <= i < n && p == devices[at[i]].path && after[p] == (#[trigger] pvs[i]).pv_uuid@ by {
            if p == path {
                assert(p == devices[at[m as int]].path && after[p] == pvs[m as int].pv_uuid@);
            } else {
                let i = choose|i: int|
                    0 <= i < m && p == devices[at[i]].path && seen[p] == (
                    #[trigger] pvs[i]).pv_uuid@;
                assert(p == devices[at[i]].path && after[p] == pvs[i].pv_uuid@);
            }
        }
        assert forall|i: int| 0 <= i < n implies after.contains_key(devices[at[i]].path)
            && after[devices[at[i]].path] == (#[trigger] pvs[i]).pv_uuid@ by {
            if i < m {
                assert(pv_sound(devices, labels, vg_id, pvs[i], at[i]));
                assert(pvs[i].pv_uuid@ != pv.pv_uuid@);
                assert(seen.contains_key(devices[at[i]].path));
                assert(devices[at[i]].path != path);
            }
        }
    }
}

/// A logical volume of the report that can be verified once it is active.
pub open spec fn lv_sound(vg_id: Seq<char>, lv: Lv) -> bool {
    &&& lvm_uuid(lv.lv_uuid@)
    &&& lv.vg_uuid@ == vg_id
    &&& lv.lv_name@.len() > 0
    &&& layout_words(lv.lv_layout@) matches Some(words) && !(words.contains("cache"@)
        && words.contains("cachevol"@))
}

proof fn lemma_lvs_pass(vg_id: Seq<char>, lvs: Seq<Lv>, n: nat)
    requires
        n <= lvs.len(),
        forall|i: int| 0 <= i < lvs.len() ==> lv_sound(vg_id, #[trigger] lvs[i]),
        forall|i: int, j: int|
            #![trigger lvs[i], lvs[j]]
            0 <= i < j < lvs.len() ==> lvs[i].lv_uuid@ != lvs[j].lv_uuid@ && lvs[i].lv_name@
                != lvs[j].lv_name@,
    ensures
        lvs_upto(vg_id, lvs, n) is Ok,
        ({
            let had = lvs_upto(vg_id, lvs, n)->Ok_0;
            &&& forall|k: Seq<char>| #[trigger]
                had.lvs.contains_key(k) ==> exists|i: int|
                    0 <= i < n && k == (#[trigger] lvs[i]).lv_name@ && had.lvs[k]
                        == lvs[i].lv_uuid@
            &&& forall|i: int|
                0 <= i < n ==> had.lvs.contains_key((#[trigger] lvs[i]).lv_name@)
                    && had.lvs[lvs[i].lv_name@] == lvs[i].lv_uuid@ && had.layouts.contains_key(
                    lvs[i].lv_uuid@,
                ) && had.layouts[lvs[i].lv_uuid@] == layout_words(lvs[i].lv_layout@)->Some_0
        }),
    decreases n,
{
    if n > 0 {
        let m = (n - 1) as nat;
        lemma_lvs_pass(vg_id, lvs, m);
        let had = lvs_upto(vg_id, lvs, m)->Ok_0;
        let lv = lvs[m as int];
        assert(lv_sound(vg_id, lv));
        assert(!had.lvs.contains_key(lv.lv_name@)) by {
            if had.lvs.contains_key(lv.lv_name@) {
                let i = choose|i: int|
                    0 <= i < m && lv.lv_name@ == (#[trigger] lvs[i]).lv_name@
                        && had.lvs[lv.lv_name@] == lvs[i].lv_uuid@;
                assert(lvs[i].lv_name@ != lv.lv_name@);
            }
        }
        assert(!has_text(had.lvs, lv.lv_uuid@)) by {
            if has_text(had.lvs, lv.lv_uuid@) {
                let k = choose|k: Seq<char>| #[trigger] had.lvs.contains_key(k) && had.lvs[k]
                    == lv.lv_uuid@;
                let i = choose|i: int|
                    0 <= i < m && k == (#[trigger] lvs[i]).lv_name@ && had.lvs[k]
                        == lvs[i].lv_uuid@;
                assert(lvs[i].lv_uuid@ != lv.lv_uuid@);
            }
        }
        let after = lvs_upto(vg_id, lvs, n)->Ok_0;
        assert forall|k: Seq<char>| #[trigger] after.lvs.contains_key(k) implies exists|i: int|
            0 <= i < n && k == (#[trigger] lvs[i]).lv_name@ && after.lvs[k] == lvs[i].lv_uuid@ by {
            if k == lv.lv_name@ {
                assert(k == lvs[m as int].lv_name@);
            } else {
                assert(had.lvs.contains_key(k));
                let i = choose|i: int|
                    0 <= i < m && k == (#[trigger] lvs[i]).lv_name@ && had.lvs[k]
                        == lvs[i].lv_uuid@;
                assert(k == lvs[i].lv_name@);
            }
        }
        assert forall|i: int| 0 <= i < n implies after.lvs.contains_key(
            (#[trigger] lvs[i]).lv_name@,
        ) && after.lvs[lvs[i].lv_name@] == lvs[i].lv_uuid@ && after.layouts.contains_key(
            lvs[i].lv_uuid@,
        ) && after.layouts[lvs[i].lv_uuid@] == layout_words(lvs[i].lv_layout@)->Some_0 by {
            if i < m {
                assert(lvs[i].lv_uuid@ != lv.lv_uuid@ && lvs[i].lv_name@ != lv.lv_name@);
            }
        }
    }
}

/// A clean report is accepted: one whole group of the configured name, whose
/// physical volumes are exactly the labelled devices, and whose logical volumes
/// are different from each other, with the configured one among them. What is
/// verified is what the report says.
pub proof fn clean_reports_pass(
    len: nat,
    report: Vec<Group>,
    devices: Seq<Candidate>,
    labels: Map<Seq<char>, Seq<char>>,
    vg_name: Seq<char>,
    lv_name: Seq<char>,
    at: Seq<int>,
    t: int,
    seqno: u64,
)
    requires
        len <= MAX_REPORT,
        0 < devices.len() <= MAX_DEVICES,
        forall|i: int|
            0 <= i < devices.len() && labels.contains_key((#[trigger] devices[i]).path)
                ==> devices[i].sectors > 0 && devices[i].start + devices[i].sectors <= u64::MAX,
        forall|i: int, j: int|
            #![trigger devices[i], devices[j]]
            0 <= i < j < devices.len() && labels.contains_key(devices[i].path)
                && labels.contains_key(devices[j].path) ==> devices[i].start + devices[i].sectors
                <= devices[j].start || devices[j].start + devices[j].sectors <= devices[i].start,
        forall|i: int, j: int|
            #![trigger devices[i], devices[j]]
            0 <= i < j < devices.len() ==> devices[i].number != devices[j].number
                && devices[i].path != devices[j].path,
        report@.len() == 1,
        report@[0].vg@.len() == 1,
        ({
            let group = report@[0];
            let vg = group.vg@[0];
            let pvs = group.pv@;
            let lvs = group.lv@;
            &&& vg.vg_name@ == vg_name
            &&& lvm_uuid(vg.vg_uuid@)
            &&& vg.vg_missing_pv_count@ == "0"@
            &&& vg.vg_partial@ == "0"@
            &&& vg.vg_exported@ == "0"@
            &&& vg.vg_systemid@ == ""@
            &&& vg.vg_lock_type@ == ""@ || vg.vg_lock_type@ == "none"@
            &&& vg.vg_seqno@ == crate::text::decimal(seqno as nat)
            &&& vg.pv_count@ == crate::text::decimal(pvs.len())
            &&& 0 < pvs.len() <= devices.len()
            &&& at.len() == pvs.len()
            &&& forall|i: int|
                0 <= i < pvs.len() ==> pv_sound(
                    devices,
                    labels,
                    vg.vg_uuid@,
                    #[trigger] pvs[i],
                    at[i],
                )
            &&& forall|i: int, j: int|
                #![trigger pvs[i], pvs[j]]
                0 <= i < j < pvs.len() ==> pvs[i].pv_uuid@ != pvs[j].pv_uuid@ && at[i] != at[j]
            &&& forall|p: Seq<char>| #[trigger]
                labels.contains_key(p) ==> exists|i: int|
                    0 <= i < at.len() && p == devices[#[trigger] at[i]].path
            &&& forall|i: int| 0 <= i < lvs.len() ==> lv_sound(vg.vg_uuid@, #[trigger] lvs[i])
            &&& forall|i: int, j: int|
                #![trigger lvs[i], lvs[j]]
                0 <= i < j < lvs.len() ==> lvs[i].lv_uuid@ != lvs[j].lv_uuid@ && lvs[i].lv_name@
                    != lvs[j].lv_name@
            &&& 0 <= t < lvs.len()
            &&& lvs[t].lv_name@ == lv_name
            &&& pvs.len() <= usize::MAX
        }),
    ensures
        ({
            let said = validated(len, Some(report), devices, labels, vg_name, lv_name);
            let verified = said->Ok_0;
            let lvs = report@[0].lv@;
            &&& said is Ok
            &&& verified.devices == devices
            &&& verified.labels == labels
            &&& verified.vg_uuid == report@[0].vg@[0].vg_uuid@
            &&& verified.vg_seqno == seqno
            &&& verified.lv_uuid == lvs[t].lv_uuid@
            &&& forall|i: int|
                0 <= i < lvs.len() ==> verified.lvs.contains_key((#[trigger] lvs[i]).lv_name@)
                    && verified.lvs[lvs[i].lv_name@] == lvs[i].lv_uuid@
                    && verified.layouts.contains_key(lvs[i].lv_uuid@)
                    && verified.layouts[lvs[i].lv_uuid@] == layout_words(
                    lvs[i].lv_layout@,
                )->Some_0
            &&& forall|k: Seq<char>| #[trigger]
                verified.lvs.contains_key(k) ==> exists|i: int|
                    0 <= i < lvs.len() && k == (#[trigger] lvs[i]).lv_name@
        }),
{
    let groups = report@;
    let group = groups[0];
    let vg = group.vg@[0];
    let pvs = group.pv@;
    let lvs = group.lv@;
    reveal_strlit("");
    let list = labelled(devices, labels, devices.len());
    assert forall|i: int| 0 <= i < list.len() implies (#[trigger] list[i]).sectors > 0
        && list[i].start + list[i].sectors <= u64::MAX by {
        lemma_labelled_come_from(devices, labels, devices.len(), i);
    }
    assert forall|i: int, j: int|
        #![trigger list[i], list[j]]
        0 <= i < j < list.len() implies list[i].start + list[i].sectors <= list[j].start
        || list[j].start + list[j].sectors <= list[i].start by {
        lemma_labelled_disjoint(devices, labels, devices.len(), i, j);
    }
    disjoint_devices_pass(list);
    crate::text::numerals_are_read_up_to_a_limit(pvs.len(), usize::MAX as nat);
    crate::text::numerals_are_read_up_to_a_limit(seqno as nat, u64::MAX as nat);
    lemma_pvs_pass(devices, labels, vg.vg_uuid@, pvs, at, pvs.len());
    lemma_lvs_pass(vg.vg_uuid@, lvs, lvs.len());
    let seen = pvs_upto(devices, labels, vg.vg_uuid@, pvs, pvs.len())->Ok_0;
    let had = lvs_upto(vg.vg_uuid@, lvs, lvs.len())->Ok_0;
    assert(had.lvs.contains_key(lvs[t].lv_name@));
    assert(labels =~= seen) by {
        assert forall|p: Seq<char>| #[trigger] labels.contains_key(p) <==> seen.contains_key(p) by {
            if labels.contains_key(p) {
                let i = choose|i: int| 0 <= i < at.len() && p == devices[#[trigger] at[i]].path;
                assert(seen.contains_key(devices[at[i]].path)) by {
                    assert(pv_sound(devices, labels, vg.vg_uuid@, pvs[i], at[i]));
                }
            }
            if seen.contains_key(p) {
                let i = choose|i: int|
                    0 <= i < pvs.len() && p == devices[at[i]].path && seen[p] == (
                    #[trigger] pvs[i]).pv_uuid@;
                assert(pv_sound(devices, labels, vg.vg_uuid@, pvs[i], at[i]));
            }
        }
        assert forall|p: Seq<char>| #[trigger] seen.contains_key(p) implies labels[p] == seen[p] by {
            let i = choose|i: int|
                0 <= i < pvs.len() && p == devices[at[i]].path && seen[p] == (
                #[trigger] pvs[i]).pv_uuid@;
            assert(pv_sound(devices, labels, vg.vg_uuid@, pvs[i], at[i]));
        }
    }
    assert(pv_sound(devices, labels, vg.vg_uuid@, pvs[0], at[0]));
    assert(labels.contains_key(devices[at[0]].path));
    assert(labels.dom().contains(devices[at[0]].path));
    reveal_with_fuel(groups_upto, 2);
}

/// An activation is authorized exactly when a fresh preflight verified the same,
/// the candidates are unchanged, and nothing is live yet.
pub proof fn activations_need_an_unchanged_and_idle_group(
    verified: Verified,
    fresh: Verified,
    devices: Seq<Candidate>,
    observed: DetachObservation,
)
    ensures
        activation_complaint(verified, fresh, devices, observed) is None <==> {
            &&& fresh == verified
            &&& devices == verified.devices
            &&& !observed.mounted
            &&& !observed.vg_active
            &&& !observed.nbd_in_use
        },
{
}

/// The group is activated and deactivated by its own identifier, and on exactly
/// its devices.
pub proof fn groups_are_changed_by_identifier_on_their_devices(verified: Verified)
    ensures
        ({
            let on = activation_words(verified);
            let off = deactivation_words(verified);
            let devices = crate::text::joined(paths(verified.devices), ","@);
            &&& on[0] == "--activate"@ && on[1] == "y"@
            &&& on[2] == "--activationmode"@ && on[3] == "complete"@
            &&& on[4] == "--devices"@ && on[5] == devices
            &&& on[6] == "--select"@ && on[7] == "vg_uuid="@ + verified.vg_uuid
            &&& on[8] == "--config"@ && on[9] == "devices { allow_changes_with_duplicate_pvs=0 }"@
            &&& on.len() == 10
            &&& off[0] == "--activate"@ && off[1] == "n"@
            &&& off[2] == "--devices"@ && off[3] == devices
            &&& off[4] == "--select"@ && off[5] == "vg_uuid="@ + verified.vg_uuid
            &&& off[6] == "--config"@ && off[7]
                == "devices { allow_changes_with_duplicate_pvs=0 }"@
            &&& off.len() == 8
        }),
        paths(verified.devices).len() == verified.devices.len(),
        forall|i: int|
            0 <= i < verified.devices.len() ==> #[trigger] paths(verified.devices)[i]
                == verified.devices[i].path,
{
}

/// The NBD device itself and each of its partitions is a candidate where the
/// kernel shows it whole: nobody holds it, its device node is its own, and a
/// partition lies within the device.
pub proof fn idle_devices_are_candidates(
    entries: Seq<BlockEntry>,
    entry: BlockEntry,
    nbd: Seq<char>,
    total: u64,
    before: Seq<Candidate>,
    number: (u32, u32),
    start: u64,
    sectors: u64,
)
    requires
        crate::sysfs::entry_named(entries, entry.name@) == Some(entry),
        entry.holders matches Some(holders) && holders@.len() == 0,
        entry.node == Some(number),
        crate::sysfs::kernel_text(
            entry.dev,
            crate::text::decimal(number.0 as nat) + ":"@ + crate::text::decimal(number.1 as nat),
        ),
        forall|i: int| 0 <= i < before.len() ==> (#[trigger] before[i]).number != number,
        if entry.name@ == nbd {
            start == 0 && sectors == total
        } else {
            &&& crate::sysfs::partition_of(entries, entry.name@, nbd) == Ok::<
                bool,
                crate::sysfs::Complaint,
            >(true)
            &&& entry.parent matches Some(parent) && parent@ == nbd
            &&& crate::sysfs::kernel_text(entry.start, crate::text::decimal(start as nat))
            &&& crate::sysfs::kernel_text(entry.size, crate::text::decimal(sectors as nat))
            &&& sectors > 0
            &&& start + sectors <= total
        },
    ensures
        candidate_of(entries, entry.name@, nbd, total, before) == Ok::<
            Candidate,
            crate::sysfs::Complaint,
        >(Candidate { path: "/dev/"@ + entry.name@, number, start, sectors }),
{
    crate::sysfs::device_numbers_read_back(number.0, number.1);
    if entry.name@ != nbd {
        crate::sysfs::sector_counts_read_back(entry.start, start);
        crate::sysfs::sector_counts_read_back(entry.size, sectors);
    }
}

/// Whatever begins like a partition of the NBD device is looked at, and nothing
/// else is.
pub proof fn every_partition_is_looked_at(
    entries: Seq<BlockEntry>,
    nbd: Seq<char>,
    n: nat,
    name: Seq<char>,
)
    requires
        n <= entries.len(),
    ensures
        partition_names(entries, nbd, n).contains(name) <==> crate::text::starts_with(
            name,
            nbd + "p"@,
        ) && exists|i: int| 0 <= i < n && (#[trigger] entries[i]).name@ == name,
    decreases n,
{
    let names = partition_names(entries, nbd, n);
    if n > 0 {
        let m = (n - 1) as nat;
        every_partition_is_looked_at(entries, nbd, m, name);
        let fewer = partition_names(entries, nbd, m);
        let last = entries[m as int].name@;
        if fewer.contains(name) {
            let i = choose|i: int| 0 <= i < m && (#[trigger] entries[i]).name@ == name;
            assert(entries[i].name@ == name);
        }
        if exists|i: int| 0 <= i < n && (#[trigger] entries[i]).name@ == name {
            let i = choose|i: int| 0 <= i < n && (#[trigger] entries[i]).name@ == name;
            if i < m {
                assert(entries[i].name@ == name);
            }
        }
        if crate::text::starts_with(last, nbd + "p"@) {
            assert(names =~= fewer.push(last));
            if fewer.contains(name) {
                let k = fewer.index_of(name);
                assert(names[k] == name);
            }
            if name == last {
                assert(names[m as int - (m as int - fewer.len())] == last);
                assert(entries[m as int].name@ == name);
            }
            if names.contains(name) {
                let k = names.index_of(name);
                if k < fewer.len() {
                    assert(fewer[k] == name);
                } else {
                    assert(name == last);
                }
            }
        }
    }
}

/// The active mapping of the configured logical volume is found under its own
/// identifier, and the internal layers of the verified volumes are no strangers.
pub proof fn active_mappings_are_recognised(
    vg_name: Seq<char>,
    lv_name: Seq<char>,
    verified: Verified,
    entry: BlockEntry,
    name: Seq<char>,
    layer: Seq<char>,
)
    requires
        lv_name.len() > 0,
        lv_name[0] != '-',
        name.len() > 0,
        name[0] != '-',
        name != lv_name,
        crate::detach::mapping_name(vg_name, name) != crate::detach::mapping_name(vg_name, lv_name),
        verified.lvs.contains_key(lv_name),
        verified.lvs[lv_name] == verified.lv_uuid,
        verified.lvs.contains_key(name),
        layer == ""@ || layer == "-real"@ || layer == "-tpool"@ || layer == "-tdata"@ || layer
            == "-tmeta"@ || layer == "-cdata"@ || layer == "-cmeta"@ || layer == "-cvol"@ || layer
            == "-pool"@,
        crate::text::starts_with(entry.name@, "dm-"@),
        entry.dm_name is Some,
        entry.dm_uuid is Some,
    ensures
        ({
            let shown = crate::text::trimmed(entry.dm_name->Some_0@);
            let uuid = crate::text::trimmed(entry.dm_uuid->Some_0@);
            let own = "LVM-"@ + bare(verified.vg_uuid) + bare(verified.lv_uuid);
            let other = "LVM-"@ + bare(verified.vg_uuid) + bare(verified.lvs[name]) + layer;
            &&& shown == crate::detach::mapping_name(vg_name, lv_name) && uuid == own
                ==> with_mapped(vg_name, lv_name, verified, entry, false) == Ok::<
                bool,
                crate::sysfs::Complaint,
            >(true)
            &&& shown == crate::detach::mapping_name(vg_name, name) && uuid == other
                ==> with_mapped(vg_name, lv_name, verified, entry, false) == Ok::<
                bool,
                crate::sysfs::Complaint,
            >(false)
        }),
{
    crate::detach::mapping_names_tell_their_group(vg_name, lv_name);
    crate::detach::mapping_names_tell_their_group(vg_name, name);
    let base = mapping_uuid(verified.vg_uuid, verified.lvs[name]);
    crate::text::prefixes_come_off(base, layer);
    reveal_strlit("");
    assert(base + ""@ =~= base);
    assert(maps_volume(base + layer, base));
}

// ---------- what an accepted report guarantees ----------

proof fn lemma_pv_checked(
    devices: Seq<Candidate>,
    labels: Map<Seq<char>, Seq<char>>,
    vg_id: Seq<char>,
    pvs: Seq<Pv>,
    n: nat,
    i: int,
)
    requires
        n <= pvs.len(),
        0 <= i < n,
        pvs_upto(devices, labels, vg_id, pvs, n) is Ok,
    ensures
        lvm_uuid(pvs[i].pv_uuid@),
        crate::text::starts_with(pvs[i].pv_name@, "/dev/"@),
        pvs[i].vg_uuid@ == vg_id,
        pvs[i].pv_missing@ == "0"@,
        pvs[i].pv_duplicate@ == "0"@,
        has_text(pvs_upto(devices, labels, vg_id, pvs, n)->Ok_0, pvs[i].pv_uuid@),
    decreases n,
{
    let m = (n - 1) as nat;
    let before = pvs_upto(devices, labels, vg_id, pvs, m)->Ok_0;
    let after = pvs_upto(devices, labels, vg_id, pvs, n)->Ok_0;
    let device = device_numbered(devices, pvs[m as int].number->Some_0, 0)->Some_0;
    assert(after == before.insert(device.path, pvs[m as int].pv_uuid@));
    if i < m {
        lemma_pv_checked(devices, labels, vg_id, pvs, m, i);
        let k = choose|k: Seq<char>| #[trigger] before.contains_key(k) && before[k]
            == pvs[i].pv_uuid@;
        assert(k != device.path);
        assert(after.contains_key(k) && after[k] == pvs[i].pv_uuid@);
    } else {
        assert(after.contains_key(device.path) && after[device.path] == pvs[i].pv_uuid@);
    }
}

proof fn lemma_pv_once(
    devices: Seq<Candidate>,
    labels: Map<Seq<char>, Seq<char>>,
    vg_id: Seq<char>,
    pvs: Seq<Pv>,
    n: nat,
    i: int,
    j: int,
)
    requires
        n <= pvs.len(),
        0 <= i < j < n,
        pvs_upto(devices, labels, vg_id, pvs, n) is Ok,
    ensures
        pvs[i].pv_uuid@ != pvs[j].pv_uuid@,
    decreases n,
{
    let m = (n - 1) as nat;
    if j < m {
        lemma_pv_once(devices, labels, vg_id, pvs, m, i, j);
    } else {
        lemma_pv_checked(devices, labels, vg_id, pvs, m, i);
    }
}

proof fn lemma_lv_checked(vg_id: Seq<char>, lvs: Seq<Lv>, n: nat, i: int)
    requires
        n <= lvs.len(),
        0 <= i < n,
        lvs_upto(vg_id, lvs, n) is Ok,
    ensures
        lvm_uuid(lvs[i].lv_uuid@),
        lvs[i].vg_uuid@ == vg_id,
        lvs[i].lv_name@.len() > 0,
        layout_words(lvs[i].lv_layout@) matches Some(words) && !(words.contains("cache"@)
            && words.contains("cachevol"@)),
        ({
            let had = lvs_upto(vg_id, lvs, n)->Ok_0;
            &&& had.lvs.contains_key(lvs[i].lv_name@)
            &&& had.lvs[lvs[i].lv_name@] == lvs[i].lv_uuid@
        }),
    decreases n,
{
    if i < n - 1 {
        lemma_lv_checked(vg_id, lvs, (n - 1) as nat, i);
    }
}

proof fn lemma_lv_once(vg_id: Seq<char>, lvs: Seq<Lv>, n: nat, i: int, j: int)
    requires
        n <= lvs.len(),
        0 <= i < j < n,
        lvs_upto(vg_id, lvs, n) is Ok,
    ensures
        lvs[i].lv_uuid@ != lvs[j].lv_uuid@,
        lvs[i].lv_name@ != lvs[j].lv_name@,
    decreases n,
{
    let m = (n - 1) as nat;
    if j < m {
        lemma_lv_once(vg_id, lvs, m, i, j);
    } else {
        lemma_lv_checked(vg_id, lvs, m, i);
    }
}

/// A report is accepted only if the group is whole, unlocked and not owned
/// elsewhere, and each of its physical and logical volumes belongs to it, is
/// present, and is told apart from the others by its identifier.
pub proof fn accepted_reports_are_clean(
    len: nat,
    report: Option<Vec<Group>>,
    devices: Seq<Candidate>,
    labels: Map<Seq<char>, Seq<char>>,
    vg_name: Seq<char>,
    lv_name: Seq<char>,
)
    requires
        validated(len, report, devices, labels, vg_name, lv_name) is Ok,
    ensures
        ({
            let group = report->Some_0@[0];
            let vg = group.vg@[0];
            let pvs = group.pv@;
            let lvs = group.lv@;
            &&& vg.vg_missing_pv_count@ == "0"@
            &&& vg.vg_partial@ == "0"@
            &&& vg.vg_exported@ == "0"@
            &&& vg.vg_systemid@.len() == 0
            &&& vg.vg_lock_type@ == ""@ || vg.vg_lock_type@ == "none"@
            &&& pvs.len() > 0
            &&& crate::text::parsed_upto(vg.pv_count@, usize::MAX as nat) == Some(pvs.len())
            &&& forall|i: int|
                0 <= i < pvs.len() ==> lvm_uuid((#[trigger] pvs[i]).pv_uuid@)
                    && crate::text::starts_with(pvs[i].pv_name@, "/dev/"@) && pvs[i].vg_uuid@
                    == vg.vg_uuid@ && pvs[i].pv_missing@ == "0"@ && pvs[i].pv_duplicate@ == "0"@
            &&& forall|i: int, j: int|
                #![trigger pvs[i], pvs[j]]
                0 <= i < j < pvs.len() ==> pvs[i].pv_uuid@ != pvs[j].pv_uuid@
            &&& forall|i: int|
                0 <= i < lvs.len() ==> lvm_uuid((#[trigger] lvs[i]).lv_uuid@) && lvs[i].vg_uuid@
                    == vg.vg_uuid@ && lvs[i].lv_name@.len() > 0 && (layout_words(
                    lvs[i].lv_layout@,
                ) matches Some(words) && !(words.contains("cache"@) && words.contains("cachevol"@)))
            &&& forall|i: int, j: int|
                #![trigger lvs[i], lvs[j]]
                0 <= i < j < lvs.len() ==> lvs[i].lv_uuid@ != lvs[j].lv_uuid@ && lvs[i].lv_name@
                    != lvs[j].lv_name@
            &&& exists|p: Seq<char>| labels.contains_key(p)
        }),
{
    verified_groups_are_the_configured_ones(len, report, devices, labels, vg_name, lv_name);
    let groups = report->Some_0@;
    let group = groups[0];
    let vg = group.vg@[0];
    let pvs = group.pv@;
    let lvs = group.lv@;
    assert(groups_upto(devices, labels, vg_name, lv_name, groups, 0) is Ok);
    assert(groups_upto(devices, labels, vg_name, lv_name, groups, 1) is Ok);
    assert(chosen_from(devices, labels, lv_name, vg, group) is Ok);
    assert forall|i: int| 0 <= i < pvs.len() implies lvm_uuid((#[trigger] pvs[i]).pv_uuid@)
        && crate::text::starts_with(pvs[i].pv_name@, "/dev/"@) && pvs[i].vg_uuid@ == vg.vg_uuid@
        && pvs[i].pv_missing@ == "0"@ && pvs[i].pv_duplicate@ == "0"@ by {
        lemma_pv_checked(devices, labels, vg.vg_uuid@, pvs, pvs.len(), i);
    }
    assert forall|i: int, j: int|
        #![trigger pvs[i], pvs[j]]
        0 <= i < j < pvs.len() implies pvs[i].pv_uuid@ != pvs[j].pv_uuid@ by {
        lemma_pv_once(devices, labels, vg.vg_uuid@, pvs, pvs.len(), i, j);
    }
    assert forall|i: int| 0 <= i < lvs.len() implies lvm_uuid((#[trigger] lvs[i]).lv_uuid@)
        && lvs[i].vg_uuid@ == vg.vg_uuid@ && lvs[i].lv_name@.len() > 0 && (layout_words(
        lvs[i].lv_layout@,
    ) matches Some(words) && !(words.contains("cache"@) && words.contains("cachevol"@))) by {
        lemma_lv_checked(vg.vg_uuid@, lvs, lvs.len(), i);
    }
    assert forall|i: int, j: int|
        #![trigger lvs[i], lvs[j]]
        0 <= i < j < lvs.len() implies lvs[i].lv_uuid@ != lvs[j].lv_uuid@ && lvs[i].lv_name@
        != lvs[j].lv_name@ by {
        lemma_lv_once(vg.vg_uuid@, lvs, lvs.len(), i, j);
    }
    lemma_pv_checked(devices, labels, vg.vg_uuid@, pvs, pvs.len(), 0);
    let p = choose|k: Seq<char>| #[trigger] labels.contains_key(k) && labels[k] == pvs[0].pv_uuid@;
    assert(labels.contains_key(p));
}

/// A device is a candidate only if nothing holds it, its node is the kernel's
/// own, its number is new, and a partition lies inside the NBD device.
pub proof fn candidates_are_idle_devices(
    entries: Seq<BlockEntry>,
    name: Seq<char>,
    nbd: Seq<char>,
    total: u64,
    before: Seq<Candidate>,
)
    requires
        candidate_of(entries, name, nbd, total, before) is Ok,
    ensures
        ({
            let found = candidate_of(entries, name, nbd, total, before)->Ok_0;
            let entry = crate::sysfs::entry_named(entries, name)->Some_0;
            &&& crate::sysfs::entry_named(entries, name) is Some
            &&& entry.holders matches Some(holders) && holders@.len() == 0
            &&& entry.node == Some(found.number)
            &&& crate::sysfs::entry_number(entry) == Ok::<(u32, u32), crate::sysfs::Complaint>(
                found.number,
            )
            &&& forall|i: int|
                0 <= i < before.len() ==> (#[trigger] before[i]).number != found.number
            &&& found.path == "/dev/"@ + name
            &&& entry.name@ == nbd ==> found.start == 0 && found.sectors == total
            &&& entry.name@ != nbd ==> {
                &&& found.sectors > 0
                &&& found.start + found.sectors <= total
                &&& crate::text::optional(entry.parent) == Some(nbd)
                &&& crate::sysfs::partition_of(entries, entry.name@, nbd) == Ok::<
                    bool,
                    crate::sysfs::Complaint,
                >(true)
            }
        }),
{
}

/// A device with a partition table alone has no label; one with neither a type
/// nor a table is not trusted to have none.
pub proof fn unlabelled_devices_show_something_else(fields: Map<Seq<char>, Seq<char>>)
    requires
        !fields.contains_key("TYPE"@),
    ensures
        fields.contains_key("PTTYPE"@) && fields["PTTYPE"@].len() > 0 ==> label_said(fields) == Ok::<
            Option<Seq<char>>,
            crate::sysfs::Complaint,
        >(None),
        !fields.contains_key("PTTYPE"@) ==> label_said(fields) is Err,
        fields.contains_key("PTTYPE"@) && fields["PTTYPE"@].len() == 0 ==> label_said(fields)
            is Err,
{
}

/// A report of a physical volume's label is read as its identifier, in whatever
/// order its fields stand and whatever else it says.
pub proof fn label_reports_are_read_by_their_fields(
    keys: Seq<Seq<char>>,
    values: Seq<Seq<char>>,
    t: int,
    u: int,
)
    requires
        keys.len() == values.len(),
        keys.no_duplicates(),
        forall|i: int|
            0 <= i < keys.len() ==> !(#[trigger] keys[i]).contains('=') && !keys[i].contains('\n'),
        forall|i: int|
            0 <= i < values.len() ==> (#[trigger] values[i]).len() > 0 && !values[i].contains(
                '\n',
            ) && values[i].last() != '\r',
        0 <= t < keys.len(),
        keys[t] == "TYPE"@,
        values[t] == "LVM2_member"@,
        0 <= u < keys.len(),
        keys[u] == "UUID"@,
        lvm_uuid(values[u]),
    ensures
        label_of(crate::text::fed(field_lines(keys, values))) == if keys.contains("PTTYPE"@) {
            Err(crate::sysfs::Complaint::Invalid("PV label overlaps a partition table"@))
        } else {
            Ok::<Option<Seq<char>>, crate::sysfs::Complaint>(Some(values[u]))
        },
{
    let lines = field_lines(keys, values);
    assert forall|i: int| 0 <= i < lines.len() implies !(#[trigger] lines[i]).contains('\n') && (
    lines[i].len() > 0 ==> lines[i].last() != '\r') by {
        let line = lines[i];
        assert(line == keys[i] + seq!['='] + values[i]);
        assert(values[i].len() > 0);
        assert(line.last() == values[i].last());
        if line.contains('\n') {
            let k = line.index_of('\n');
            let a = keys[i].len() as int;
            if k < a {
                assert(keys[i][k] == '\n');
            } else if k > a {
                assert(values[i][k - a - 1] == '\n');
            }
        }
    }
    crate::text::fed_lines_read_back(lines);
    fields_are_read_as_they_are_set(keys, values, keys.len());
    assert(keys.take(keys.len() as int) =~= keys);
    let fields = label_fields(lines, lines.len())->Ok_0;
    assert(keys.contains(keys[t]));
    assert(keys.contains(keys[u]));
    assert(fields[keys[t]] == values[t]);
    assert(fields[keys[u]] == values[u]);
}

// ---------- what was persisted ----------

proof fn lemma_persisted_devices(devices: Seq<Candidate>, nbd: Seq<char>, i: int)
    requires
        0 <= i <= devices.len(),
    ensures
        persisted_devices_complaint(devices, nbd, i) is None <==> forall|j: int|
            i <= j < devices.len() ==> (#[trigger] persisted_device_complaint(devices, nbd, j))
                is None,
    decreases devices.len() - i,
{
    if i < devices.len() {
        lemma_persisted_devices(devices, nbd, i + 1);
        if persisted_devices_complaint(devices, nbd, i) is None {
            assert forall|j: int| i <= j < devices.len() implies (
            #[trigger] persisted_device_complaint(devices, nbd, j)) is None by {}
        }
    }
}

proof fn lemma_sectors_at(devices: Seq<Candidate>, path: Seq<char>, i: int, r: int)
    requires
        0 <= i <= r < devices.len(),
        devices[r].path == path,
        forall|j: int| i <= j < r ==> (#[trigger] devices[j]).path != path,
    ensures
        sectors_at(devices, path, i) == Some(devices[r].sectors),
    decreases r - i,
{
    if i < r {
        lemma_sectors_at(devices, path, i + 1, r);
    }
}

proof fn lemma_sectors_found(devices: Seq<Candidate>, path: Seq<char>, i: int) -> (r: int)
    requires
        0 <= i,
        sectors_at(devices, path, i) is Some,
    ensures
        i <= r < devices.len(),
        devices[r].path == path,
        sectors_at(devices, path, i) == Some(devices[r].sectors),
    decreases devices.len() - i,
{
    if devices[i].path == path {
        i
    } else {
        lemma_sectors_found(devices, path, i + 1)
    }
}

proof fn lemma_persisted_lvs(names: Seq<Seq<char>>, lvs: Map<Seq<char>, Seq<char>>, i: int)
    requires
        0 <= i <= names.len(),
        forall|j: int|
            0 <= j < names.len() ==> crate::config::lvm_complaint(
                "persisted_lv_name"@,
                #[trigger] names[j],
            ) is None && lvm_uuid(lvs[names[j]]),
        forall|j: int, k: int|
            #![trigger names[j], names[k]]
            0 <= j < k < names.len() ==> lvs[names[j]] != lvs[names[k]],
    ensures
        persisted_lv_complaint(names, lvs, i) is None,
    decreases names.len() - i,
{
    if i < names.len() {
        lemma_persisted_lvs(names, lvs, i + 1);
    }
}

proof fn lemma_persisted_lvs_checked(
    names: Seq<Seq<char>>,
    lvs: Map<Seq<char>, Seq<char>>,
    i: int,
    k: int,
)
    requires
        0 <= i <= k < names.len(),
        persisted_lv_complaint(names, lvs, i) is None,
    ensures
        crate::config::lvm_complaint("persisted_lv_name"@, names[k]) is None,
        lvm_uuid(lvs[names[k]]),
        forall|j: int| 0 <= j < k ==> lvs[#[trigger] names[j]] != lvs[names[k]],
    decreases k - i,
{
    if i < k {
        lemma_persisted_lvs_checked(names, lvs, i + 1, k);
    }
}

/// A persisted identity passes where its devices are the NBD device and
/// partitions inside it, each once, with labels on some of them, and its logical
/// volumes have valid names, identifiers of their own and verifiable layouts.
pub proof fn sound_identities_pass(
    nbd: Seq<char>,
    parts: Seq<Option<nat>>,
    r: int,
    lv_name: Seq<char>,
    verified: Verified,
    lv_names: Seq<Seq<char>>,
    label: Seq<char>,
)
    requires
        0 < verified.devices.len() <= MAX_DEVICES,
        parts.len() == verified.devices.len(),
        0 <= r < parts.len(),
        parts[r] is None,
        ({
            let devices = verified.devices;
            &&& forall|i: int|
                0 <= i < devices.len() ==> (#[trigger] devices[i]).path == "/dev/"@ + match parts[i] {
                    None => nbd,
                    Some(k) => nbd + "p"@ + crate::text::decimal(k),
                }
            &&& forall|i: int|
                0 <= i < devices.len() ==> (#[trigger] devices[i]).sectors > 0 && devices[i].start
                    + devices[i].sectors <= devices[r].sectors
            &&& forall|i: int, j: int|
                #![trigger devices[i], devices[j]]
                0 <= i < j < devices.len() ==> devices[i].path != devices[j].path
                    && devices[i].number != devices[j].number
        }),
        verified.labels.contains_key(label),
        forall|k: Seq<char>| #[trigger]
            verified.labels.contains_key(k) ==> lvm_uuid(verified.labels[k]) && exists|i: int|
                0 <= i < verified.devices.len() && (#[trigger] verified.devices[i]).path == k,
        forall|a: Seq<char>, b: Seq<char>|
            #![trigger verified.labels.contains_key(a), verified.labels.contains_key(b)]
            verified.labels.contains_key(a) && verified.labels.contains_key(b) && a != b
                ==> verified.labels[a] != verified.labels[b],
        lvm_uuid(verified.vg_uuid),
        lvm_uuid(verified.lv_uuid),
        0 < lv_names.len() <= MAX_DEVICES,
        forall|j: int|
            0 <= j < lv_names.len() ==> crate::config::lvm_complaint(
                "persisted_lv_name"@,
                #[trigger] lv_names[j],
            ) is None && lvm_uuid(verified.lvs[lv_names[j]]),
        forall|j: int, k: int|
            #![trigger lv_names[j], lv_names[k]]
            0 <= j < k < lv_names.len() ==> verified.lvs[lv_names[j]] != verified.lvs[lv_names[k]],
        verified.lvs.contains_key(lv_name),
        verified.lvs[lv_name] == verified.lv_uuid,
        forall|id: Seq<char>| #[trigger]
            verified.layouts.contains_key(id) <==> exists|name: Seq<char>| #[trigger]
                verified.lvs.contains_key(name) && verified.lvs[name] == id,
        forall|id: Seq<char>| #[trigger]
            verified.layouts.contains_key(id) ==> {
                &&& exists|t: Seq<char>| #[trigger] verified.layouts[id].contains(t)
                &&& forall|t: Seq<char>| #[trigger]
                    verified.layouts[id].contains(t) ==> layout_word(t)
                &&& !(verified.layouts[id].contains("cache"@) && verified.layouts[id].contains(
                    "cachevol"@,
                ))
            },
    ensures
        persisted_complaint("/dev/"@ + nbd, lv_name, verified, lv_names) is None,
{
    let devices = verified.devices;
    let device = "/dev/"@ + nbd;
    crate::text::prefixes_come_off("/dev/"@, nbd);
    assert forall|i: int| 0 <= i < devices.len() implies (#[trigger] persisted_device_complaint(
        devices,
        nbd,
        i,
    )) is None by {
        let d = devices[i];
        assert(d.sectors > 0 && d.start + d.sectors <= devices[r].sectors);
        assert(d.path == "/dev/"@ + match parts[i] {
            None => nbd,
            Some(k) => nbd + "p"@ + crate::text::decimal(k),
        });
        assert forall|j: int| 0 <= j < i implies (#[trigger] devices[j]).path != d.path
            && devices[j].number != d.number by {}
        match parts[i] {
            None => {
                if i != r {
                    assert(devices[r].path == device);
                    assert(d.path == device);
                    if i < r {
                        assert(devices[i].path != devices[r].path);
                    } else {
                        assert(devices[r].path != devices[i].path);
                    }
                }
            },
            Some(k) => {
                let name = nbd + "p"@ + crate::text::decimal(k);
                crate::text::prefixes_come_off("/dev/"@, name);
                crate::text::prefixes_come_off(nbd + "p"@, crate::text::decimal(k));
                crate::text::numerals_are_read_up_to_a_limit(k, k);
                reveal_strlit("p");
                assert(name.len() > nbd.len());
            },
        }
    }
    lemma_persisted_devices(devices, nbd, 0);
    assert(devices[r].path == device);
    assert forall|j: int| 0 <= j < r implies (#[trigger] devices[j]).path != device by {
        assert(devices[j].path != devices[r].path);
    }
    lemma_sectors_at(devices, device, 0, r);
    assert(verified.labels.dom().contains(label));
    lemma_persisted_lvs(lv_names, verified.lvs, 0);
    assert forall|id: Seq<char>| #[trigger] verified.layouts.contains_key(id) implies layout_sound(
        verified.layouts[id],
    ) by {
        let t = choose|t: Seq<char>| #[trigger] verified.layouts[id].contains(t);
        assert(verified.layouts[id].contains(t));
    }
}

/// Nothing else passes for a persisted identity: each of its devices is not
/// empty, lies inside the NBD device, which starts at its first sector, and is
/// told apart from the others; each label stands on one of them; each logical
/// volume has a valid name and an identifier of its own.
pub proof fn accepted_identities_are_sound(
    device: Seq<char>,
    lv_name: Seq<char>,
    verified: Verified,
    lv_names: Seq<Seq<char>>,
) -> (r: int)
    requires
        persisted_complaint(device, lv_name, verified, lv_names) is None,
    ensures
        ({
            let devices = verified.devices;
            &&& 0 < devices.len() <= MAX_DEVICES
            &&& 0 <= r < devices.len()
            &&& devices[r].path == device
            &&& devices[r].start == 0
            &&& forall|i: int|
                0 <= i < devices.len() ==> (#[trigger] devices[i]).sectors > 0 && devices[i].start
                    + devices[i].sectors <= devices[r].sectors
            &&& forall|i: int, j: int|
                #![trigger devices[i], devices[j]]
                0 <= i < j < devices.len() ==> devices[i].path != devices[j].path
                    && devices[i].number != devices[j].number
        }),
        exists|k: Seq<char>| #[trigger] verified.labels.contains_key(k),
        forall|k: Seq<char>| #[trigger]
            verified.labels.contains_key(k) ==> lvm_uuid(verified.labels[k]) && listed(
                verified.devices,
                k,
            ),
        forall|a: Seq<char>, b: Seq<char>|
            #![trigger verified.labels.contains_key(a), verified.labels.contains_key(b)]
            verified.labels.contains_key(a) && verified.labels.contains_key(b) && a != b
                ==> verified.labels[a] != verified.labels[b],
        lvm_uuid(verified.vg_uuid),
        lvm_uuid(verified.lv_uuid),
        0 < lv_names.len() <= MAX_DEVICES,
        forall|j: int|
            0 <= j < lv_names.len() ==> crate::config::lvm_complaint(
                "persisted_lv_name"@,
                #[trigger] lv_names[j],
            ) is None && lvm_uuid(verified.lvs[lv_names[j]]),
        forall|j: int, k: int|
            #![trigger lv_names[j], lv_names[k]]
            0 <= j < k < lv_names.len() ==> verified.lvs[lv_names[j]] != verified.lvs[lv_names[k]],
        verified.lvs.contains_key(lv_name) && verified.lvs[lv_name] == verified.lv_uuid,
        forall|id: Seq<char>| #[trigger]
            verified.layouts.contains_key(id) ==> {
                &&& verified.layouts[id] != Set::<Seq<char>>::empty()
                &&& forall|t: Seq<char>| #[trigger]
                    verified.layouts[id].contains(t) ==> layout_word(t)
                &&& !(verified.layouts[id].contains("cache"@) && verified.layouts[id].contains(
                    "cachevol"@,
                ))
            },
{
    let devices = verified.devices;
    let nbd = crate::text::after_prefix(device, "/dev/"@)->Some_0;
    lemma_persisted_devices(devices, nbd, 0);
    let r = lemma_sectors_found(devices, device, 0);
    assert(persisted_device_complaint(devices, nbd, r) is None);
    assert forall|i: int| 0 <= i < devices.len() implies (#[trigger] devices[i]).sectors > 0
        && devices[i].start + devices[i].sectors <= devices[r].sectors by {
        assert(persisted_device_complaint(devices, nbd, i) is None);
    }
    assert forall|i: int, j: int|
        #![trigger devices[i], devices[j]]
        0 <= i < j < devices.len() implies devices[i].path != devices[j].path && devices[i].number
        != devices[j].number by {
        assert(persisted_device_complaint(devices, nbd, j) is None);
        assert(!repeats(devices, j));
    }
    if forall|k: Seq<char>| !(#[trigger] verified.labels.contains_key(k)) {
        assert(verified.labels.dom() =~= Set::<Seq<char>>::empty());
    }
    assert forall|j: int| 0 <= j < lv_names.len() implies crate::config::lvm_complaint(
        "persisted_lv_name"@,
        #[trigger] lv_names[j],
    ) is None && lvm_uuid(verified.lvs[lv_names[j]]) by {
        lemma_persisted_lvs_checked(lv_names, verified.lvs, 0, j);
    }
    assert forall|j: int, k: int|
        #![trigger lv_names[j], lv_names[k]]
        0 <= j < k < lv_names.len() implies verified.lvs[lv_names[j]]
        != verified.lvs[lv_names[k]] by {
        lemma_persisted_lvs_checked(lv_names, verified.lvs, 0, k);
    }
    assert forall|id: Seq<char>| #[trigger] verified.layouts.contains_key(id) implies layout_sound(
        verified.layouts[id],
    ) by {}
    r
}

// ---------- what a recovery recognises ----------

proof fn lemma_own_names(entries: Seq<BlockEntry>, nbd: Seq<char>, n: nat)
    requires
        n <= entries.len(),
        forall|j: int|
            0 <= j < entries.len() ==> crate::detach::on_device(
                entries,
                (#[trigger] entries[j]).name@,
                nbd,
            ) is Ok,
    ensures
        own_names(entries, nbd, n) is Ok,
        forall|name: Seq<char>| #[trigger]
            own_names(entries, nbd, n)->Ok_0.contains(name) <==> exists|j: int|
                0 <= j < n && (#[trigger] entries[j]).name@ == name && crate::detach::on_device(
                    entries,
                    name,
                    nbd,
                ) == Ok::<bool, crate::sysfs::Complaint>(true),
    decreases n,
{
    if n > 0 {
        let m = (n - 1) as nat;
        lemma_own_names(entries, nbd, m);
        let last = entries[m as int];
        assert forall|name: Seq<char>| #[trigger]
            own_names(entries, nbd, n)->Ok_0.contains(name) <==> exists|j: int|
                0 <= j < n && (#[trigger] entries[j]).name@ == name && crate::detach::on_device(
                    entries,
                    name,
                    nbd,
                ) == Ok::<bool, crate::sysfs::Complaint>(true) by {
            let before = own_names(entries, nbd, m)->Ok_0;
            if before.contains(name) {
                let j = choose|j: int|
                    0 <= j < m && (#[trigger] entries[j]).name@ == name
                        && crate::detach::on_device(entries, name, nbd) == Ok::<
                        bool,
                        crate::sysfs::Complaint,
                    >(true);
                assert(entries[j].name@ == name);
            }
            assert(entries[m as int].name@ == last.name@);
            if !before.contains(name) && last.name@ != name {
                assert forall|j: int| 0 <= j < n implies !((#[trigger] entries[j]).name@ == name
                    && crate::detach::on_device(entries, name, nbd) == Ok::<
                    bool,
                    crate::sysfs::Complaint,
                >(true)) by {}
            }
        }
    }
}

proof fn lemma_device_names(devices: Seq<Candidate>, names: Seq<Seq<char>>, n: nat)
    requires
        n <= devices.len() == names.len(),
        forall|i: int|
            0 <= i < devices.len() ==> (#[trigger] devices[i]).path == "/dev/"@ + names[i],
    ensures
        device_names(devices, n) is Some,
        forall|name: Seq<char>| #[trigger]
            device_names(devices, n)->Some_0.contains(name) <==> names.take(n as int).contains(name),
    decreases n,
{
    if n > 0 {
        let m = (n - 1) as nat;
        lemma_device_names(devices, names, m);
        assert(devices[m as int].path == "/dev/"@ + names[m as int]);
        crate::text::prefixes_come_off("/dev/"@, names[m as int]);
        assert(names.take(n as int) =~= names.take(m as int).push(names[m as int]));
        assert forall|name: Seq<char>| #[trigger]
            device_names(devices, n)->Some_0.contains(name) <==> names.take(n as int).contains(
                name,
            ) by {
            let shorter = names.take(m as int);
            let longer = names.take(n as int);
            if shorter.contains(name) {
                assert(longer[shorter.index_of(name)] == name);
            }
            assert(longer[m as int] == names[m as int]);
            if longer.contains(name) && name != names[m as int] {
                assert(shorter[longer.index_of(name)] == name);
            }
        }
    } else {
        assert(names.take(0) =~= Seq::<Seq<char>>::empty());
    }
}

proof fn lemma_devices_unmoved(
    entries: Seq<BlockEntry>,
    nbd: Seq<char>,
    devices: Seq<Candidate>,
    i: int,
)
    requires
        0 <= i <= devices.len(),
    ensures
        devices_unmoved(entries, nbd, devices, i) is Ok <==> forall|j: int|
            i <= j < devices.len() ==> device_unmoved(entries, nbd, #[trigger] devices[j]) is Ok,
    decreases devices.len() - i,
{
    if i < devices.len() {
        lemma_devices_unmoved(entries, nbd, devices, i + 1);
        if devices_unmoved(entries, nbd, devices, i) is Ok {
            assert forall|j: int| i <= j < devices.len() implies device_unmoved(
                entries,
                nbd,
                #[trigger] devices[j],
            ) is Ok by {}
        } else if device_unmoved(entries, nbd, devices[i]) is Ok {
            let j = choose|j: int|
                i + 1 <= j < devices.len() && !(device_unmoved(entries, nbd, #[trigger] devices[j])
                    is Ok);
            assert(!(device_unmoved(entries, nbd, devices[j]) is Ok));
        }
    }
}

/// The devices of a recovery are recognised exactly when the kernel's NBD device
/// and partitions are those that were verified, no more and no fewer, and none
/// of them has moved.
pub proof fn the_same_devices_are_recognised(
    nbd: Seq<char>,
    names: Seq<Seq<char>>,
    verified: Verified,
    entries: Seq<BlockEntry>,
    odd_names: bool,
)
    requires
        names.len() == verified.devices.len(),
        forall|i: int|
            0 <= i < names.len() ==> (#[trigger] verified.devices[i]).path == "/dev/"@ + names[i],
        forall|j: int|
            0 <= j < entries.len() ==> crate::detach::on_device(
                entries,
                (#[trigger] entries[j]).name@,
                nbd,
            ) is Ok,
    ensures
        devices_verified("/dev/"@ + nbd, verified, entries, odd_names) is Ok <==> {
            &&& !odd_names
            &&& forall|j: int|
                0 <= j < entries.len() && crate::detach::on_device(
                    entries,
                    (#[trigger] entries[j]).name@,
                    nbd,
                ) == Ok::<bool, crate::sysfs::Complaint>(true) ==> names.contains(entries[j].name@)
            &&& forall|i: int|
                0 <= i < names.len() ==> exists|j: int|
                    0 <= j < entries.len() && (#[trigger] entries[j]).name@ == #[trigger] names[i]
                        && crate::detach::on_device(entries, names[i], nbd) == Ok::<
                        bool,
                        crate::sysfs::Complaint,
                    >(true)
            &&& forall|i: int|
                0 <= i < names.len() ==> device_unmoved(
                    entries,
                    nbd,
                    #[trigger] verified.devices[i],
                ) is Ok
        },
{
    crate::text::prefixes_come_off("/dev/"@, nbd);
    lemma_own_names(entries, nbd, entries.len());
    lemma_device_names(verified.devices, names, names.len());
    lemma_devices_unmoved(entries, nbd, verified.devices, 0);
    assert(names.take(names.len() as int) =~= names);
    let actual = own_names(entries, nbd, entries.len())->Ok_0;
    let expected = device_names(verified.devices, names.len())->Some_0;
    let held = forall|j: int|
        0 <= j < entries.len() && crate::detach::on_device(
            entries,
            (#[trigger] entries[j]).name@,
            nbd,
        ) == Ok::<bool, crate::sysfs::Complaint>(true) ==> names.contains(entries[j].name@);
    let there = forall|i: int|
        0 <= i < names.len() ==> exists|j: int|
            0 <= j < entries.len() && (#[trigger] entries[j]).name@ == #[trigger] names[i]
                && crate::detach::on_device(entries, names[i], nbd) == Ok::<
                bool,
                crate::sysfs::Complaint,
            >(true);
    if held && there {
        assert forall|name: Seq<char>| actual.contains(name) <==> expected.contains(name) by {
            if expected.contains(name) {
                let i = names.index_of(name);
                assert(names[i] == name);
            }
        }
        assert(actual =~= expected);
    }
    if actual == expected {
        assert forall|j: int|
            0 <= j < entries.len() && crate::detach::on_device(
                entries,
                (#[trigger] entries[j]).name@,
                nbd,
            ) == Ok::<bool, crate::sysfs::Complaint>(true) implies names.contains(
            entries[j].name@,
        ) by {
            assert(actual.contains(entries[j].name@));
        }
        assert forall|i: int| 0 <= i < names.len() implies exists|j: int|
            0 <= j < entries.len() && (#[trigger] entries[j]).name@ == #[trigger] names[i]
                && crate::detach::on_device(entries, names[i], nbd) == Ok::<
                bool,
                crate::sysfs::Complaint,
            >(true) by {
            assert(names.contains(names[i]));
            assert(expected.contains(names[i]));
            assert(actual.contains(names[i]));
        }
    }
}

/// A device has not moved exactly when its number, its length and, for a
/// partition, its first sector are those that were verified.
pub proof fn unmoved_devices_keep_their_place(
    entries: Seq<BlockEntry>,
    nbd: Seq<char>,
    name: Seq<char>,
    device: Candidate,
    entry: BlockEntry,
    number: (u32, u32),
    start: u64,
    sectors: u64,
)
    requires
        device.path == "/dev/"@ + name,
        crate::sysfs::entry_named(entries, name) == Some(entry),
        crate::sysfs::kernel_text(
            entry.dev,
            crate::text::decimal(number.0 as nat) + ":"@ + crate::text::decimal(number.1 as nat),
        ),
        crate::sysfs::kernel_text(entry.size, crate::text::decimal(sectors as nat)),
        name != nbd ==> {
            &&& crate::sysfs::kernel_text(entry.start, crate::text::decimal(start as nat))
            &&& crate::sysfs::partition_of(entries, name, nbd) == Ok::<
                bool,
                crate::sysfs::Complaint,
            >(true)
        },
        name == nbd ==> start == 0,
    ensures
        device_unmoved(entries, nbd, device) is Ok <==> device.number == number && device.sectors
            == sectors && device.start == start,
{
    reveal_strlit("/dev/");
    assert(device.path.skip(5) =~= name);
    crate::sysfs::device_numbers_read_back(number.0, number.1);
    crate::sysfs::sector_counts_read_back(entry.size, sectors);
    if name != nbd {
        crate::sysfs::sector_counts_read_back(entry.start, start);
    }
}

proof fn lemma_mapped(
    vg_name: Seq<char>,
    lv_name: Seq<char>,
    verified: Verified,
    entries: Seq<BlockEntry>,
    n: nat,
    t: int,
)
    requires
        n <= entries.len(),
        forall|i: int|
            0 <= i < entries.len() && i != t ==> with_mapped(
                vg_name,
                lv_name,
                verified,
                #[trigger] entries[i],
                false,
            ) == Ok::<bool, crate::sysfs::Complaint>(false),
        0 <= t < entries.len() ==> with_mapped(vg_name, lv_name, verified, entries[t], false) == Ok::<
            bool,
            crate::sysfs::Complaint,
        >(true),
    ensures
        mapped_upto(vg_name, lv_name, verified, entries, n) == Ok::<bool, crate::sysfs::Complaint>(
            0 <= t < n,
        ),
    decreases n,
{
    if n > 0 {
        lemma_mapped(vg_name, lv_name, verified, entries, (n - 1) as nat, t);
        let entry = entries[n - 1];
        if n - 1 != t {
            assert(with_mapped(vg_name, lv_name, verified, entry, false) == Ok::<
                bool,
                crate::sysfs::Complaint,
            >(false));
            assert(with_mapped(vg_name, lv_name, verified, entry, true) == Ok::<
                bool,
                crate::sysfs::Complaint,
            >(true));
        }
    }
}

/// Mappings are verified where each one is of another group or a verified part
/// of this one, with the target among them at most once, and there where it is
/// asked for.
pub proof fn known_mappings_are_verified(
    record: BoundDeviceRecord,
    verified: Verified,
    entries: Seq<BlockEntry>,
    require_target: bool,
    t: int,
)
    requires
        ({
            let vg_name = record.attachment.vg_name@;
            let lv_name = record.attachment.lv_name@;
            &&& forall|i: int|
                0 <= i < entries.len() && i != t ==> with_mapped(
                    vg_name,
                    lv_name,
                    verified,
                    #[trigger] entries[i],
                    false,
                ) == Ok::<bool, crate::sysfs::Complaint>(false)
            &&& 0 <= t < entries.len() ==> with_mapped(
                vg_name,
                lv_name,
                verified,
                entries[t],
                false,
            ) == Ok::<bool, crate::sysfs::Complaint>(true)
        }),
    ensures
        mappings_verified(record, verified, entries, require_target) is Ok <==> (require_target
            ==> 0 <= t < entries.len()),
{
    lemma_mapped(
        record.attachment.vg_name@,
        record.attachment.lv_name@,
        verified,
        entries,
        entries.len(),
        t,
    );
}

proof fn lemma_candidates_found(
    entries: Seq<BlockEntry>,
    names: Seq<Seq<char>>,
    nbd: Seq<char>,
    total: u64,
    n: nat,
)
    requires
        n <= names.len(),
        candidates_upto(entries, names, nbd, total, n) is Ok,
    ensures
        candidates_upto(entries, names, nbd, total, n)->Ok_0.len() == n,
        forall|i: int|
            0 <= i < n ==> (#[trigger] candidates_upto(
                entries,
                names,
                nbd,
                total,
                n,
            )->Ok_0[i]).path == "/dev/"@ + names[i],
    decreases n,
{
    if n > 0 {
        lemma_candidates_found(entries, names, nbd, total, (n - 1) as nat);
    }
}

/// A discovery finds the NBD device and every name that begins like one of its
/// partitions, and nothing else, in the order of their names.
pub proof fn discoveries_hold_every_partition(
    entries: Seq<BlockEntry>,
    odd_names: bool,
    device: Seq<char>,
    name: Seq<char>,
)
    requires
        discovered(entries, odd_names, device) is Ok,
    ensures
        ({
            let found = discovered(entries, odd_names, device)->Ok_0;
            let nbd = device.skip(5);
            (exists|i: int| 0 <= i < found.len() && (#[trigger] found[i]).path == "/dev/"@ + name)
                <==> name == nbd || partition_names(entries, nbd, entries.len()).contains(name)
        }),
        !odd_names,
{
    let found = discovered(entries, odd_names, device)->Ok_0;
    let nbd = device.skip(5);
    let root = crate::sysfs::entry_named(entries, nbd)->Some_0;
    let total = crate::sysfs::sectors_of(root.size)->Ok_0;
    let parts = partition_names(entries, nbd, entries.len());
    let all = seq![nbd] + parts;
    let names = crate::text::sorted(all);
    lemma_candidates_found(entries, names, nbd, total, names.len());
    crate::text::sorting_keeps_every_text(all);
    all.to_multiset_ensures();
    names.to_multiset_ensures();
    assert(names.contains(name) <==> all.contains(name)) by {
        assert(names.to_multiset().count(name) == all.to_multiset().count(name));
    }
    assert(all[0] == nbd);
    if parts.contains(name) {
        assert(all[parts.index_of(name) + 1] == name);
    }
    if all.contains(name) && name != nbd {
        let i = all.index_of(name);
        assert(parts[i - 1] == name);
    }
    if names.contains(name) {
        let i = names.index_of(name);
        assert(found[i].path == "/dev/"@ + name);
    }
    if exists|i: int| 0 <= i < found.len() && (#[trigger] found[i]).path == "/dev/"@ + name {
        let i = choose|i: int| 0 <= i < found.len() && (#[trigger] found[i]).path == "/dev/"@ + name;
        assert(found[i].path == "/dev/"@ + names[i]);
        assert(("/dev/"@ + names[i]).skip("/dev/"@.len() as int) =~= names[i]);
        assert(("/dev/"@ + name).skip("/dev/"@.len() as int) =~= name);
    }
}

/// A recovery recognises its attachment by its devices and its mappings both.
pub proof fn recoveries_check_devices_and_mappings(
    record: BoundDeviceRecord,
    verified: Verified,
    entries: Seq<BlockEntry>,
    odd_names: bool,
    require_target: bool,
)
    ensures
        recovery_verified(record, verified, entries, odd_names, require_target) is Ok
            <==> devices_verified(record.device@, verified, entries, odd_names) is Ok
            && mappings_verified(record, verified, entries, require_target) is Ok,
{
}

// ---------- what is refused ----------

/// Nothing but letters and digits stands in the runs of an LVM identifier.
pub proof fn lvm_identifiers_hold_letters_and_digits(value: Seq<char>, i: int, k: int)
    requires
        lvm_uuid(value),
        0 <= i < crate::text::split(value, '-').len(),
        0 <= k < crate::text::split(value, '-')[i].len(),
    ensures
        ({
            let c = crate::text::split(value, '-')[i][k];
            '0' <= c <= '9' || 'a' <= c <= 'z' || 'A' <= c <= 'Z'
        }),
{
    let part = crate::text::split(value, '-')[i];
    assert(alnum_run(part));
    crate::text::characters_are_classed_by_range(part[k]);
}

proof fn lemma_layout_checked(pieces: Seq<Seq<char>>, n: nat, i: int)
    requires
        n <= pieces.len(),
        0 <= i < n,
        layout_upto(pieces, n) is Some,
    ensures
        layout_word(crate::text::trimmed(pieces[i])),
        layout_upto(pieces, n)->Some_0.contains(crate::text::trimmed(pieces[i])),
    decreases n,
{
    if i < n - 1 {
        lemma_layout_checked(pieces, (n - 1) as nat, i);
    }
}

proof fn lemma_layout_once(pieces: Seq<Seq<char>>, n: nat, i: int, j: int)
    requires
        n <= pieces.len(),
        0 <= i < j < n,
        layout_upto(pieces, n) is Some,
    ensures
        crate::text::trimmed(pieces[i]) != crate::text::trimmed(pieces[j]),
    decreases n,
{
    if j < n - 1 {
        lemma_layout_once(pieces, (n - 1) as nat, i, j);
    } else {
        lemma_layout_checked(pieces, (n - 1) as nat, i);
    }
}

/// A layout with a strange word, or with a word twice, is not understood; the
/// words are made of lowercase letters, digits, underscores and hyphens.
pub proof fn strange_layouts_are_not_understood(layout: Seq<char>, i: int, j: int)
    requires
        layout_words(layout) is Some,
        0 <= i < crate::text::split(layout, ',').len(),
        0 <= j < crate::text::split(layout, ',').len(),
    ensures
        ({
            let pieces = crate::text::split(layout, ',');
            let word = crate::text::trimmed(pieces[i]);
            &&& word.len() > 0
            &&& forall|k: int|
                0 <= k < word.len() ==> {
                    let c = #[trigger] word[k];
                    'a' <= c <= 'z' || '0' <= c <= '9' || c == '_' || c == '-'
                }
            &&& i != j ==> word != crate::text::trimmed(pieces[j])
        }),
{
    let pieces = crate::text::split(layout, ',');
    lemma_layout_checked(pieces, pieces.len(), i);
    if i < j {
        lemma_layout_once(pieces, pieces.len(), i, j);
    } else if j < i {
        lemma_layout_once(pieces, pieces.len(), j, i);
    }
}

/// An identifier loses its hyphens and nothing else.
pub proof fn hyphens_are_left_out(a: Seq<char>, b: Seq<char>)
    ensures
        bare(a + seq!['-'] + b) == bare(a) + bare(b),
        !a.contains('-') ==> bare(a) == a,
{
    reveal_strlit("");
    assert(""@ =~= Seq::<char>::empty());
    crate::text::characters_are_replaced_everywhere(a, seq!['-'], '-', ""@);
    crate::text::characters_are_replaced_everywhere(a + seq!['-'], b, '-', ""@);
    assert(bare(a) + ""@ =~= bare(a));
}

/// A mapping belongs to the verified group where its identifier is that of a
/// verified logical volume, or that of one of the layers LVM puts under it.
pub proof fn verified_volumes_own_their_mappings(
    verified: Verified,
    name: Seq<char>,
    layer: Seq<char>,
)
    requires
        verified.lvs.contains_key(name),
        layer == ""@ || layer == "-real"@ || layer == "-tpool"@ || layer == "-tdata"@ || layer
            == "-tmeta"@ || layer == "-cdata"@ || layer == "-cmeta"@ || layer == "-cvol"@ || layer
            == "-pool"@,
    ensures
        owned_mapping(
            verified,
            "LVM-"@ + bare(verified.vg_uuid) + bare(verified.lvs[name]) + layer,
        ),
{
    reveal_strlit("");
    let base = mapping_uuid(verified.vg_uuid, verified.lvs[name]);
    crate::text::prefixes_come_off(base, layer);
    if layer == ""@ {
        assert(base + layer =~= base);
    }
    assert(verified.lvs.contains_key(name) && maps_volume(base + layer, base));
}

/// No other mapping belongs to it.
pub proof fn owned_mappings_are_verified_volumes(verified: Verified, uuid: Seq<char>) -> (r: (
    Seq<char>,
    Seq<char>,
))
    requires
        owned_mapping(verified, uuid),
    ensures
        verified.lvs.contains_key(r.0),
        r.1 == ""@ || r.1 == "-real"@ || r.1 == "-tpool"@ || r.1 == "-tdata"@ || r.1 == "-tmeta"@
            || r.1 == "-cdata"@ || r.1 == "-cmeta"@ || r.1 == "-cvol"@ || r.1 == "-pool"@,
        uuid == "LVM-"@ + bare(verified.vg_uuid) + bare(verified.lvs[r.0]) + r.1,
{
    reveal_strlit("");
    let name = choose|name: Seq<char>| #[trigger]
        verified.lvs.contains_key(name) && maps_volume(
            uuid,
            mapping_uuid(verified.vg_uuid, verified.lvs[name]),
        );
    let base = mapping_uuid(verified.vg_uuid, verified.lvs[name]);
    if uuid == base {
        assert(uuid =~= base + ""@);
        (name, ""@)
    } else {
        let layer = crate::text::after_prefix(uuid, base)->Some_0;
        assert(uuid =~= base + layer);
        (name, layer)
    }
}

/// The target is accepted once, and under its own identifier alone.
pub proof fn the_target_is_accepted_once(
    vg_name: Seq<char>,
    lv_name: Seq<char>,
    verified: Verified,
    entry: BlockEntry,
    found: bool,
    name: String,
    uuid: String,
)
    requires
        crate::text::starts_with(entry.name@, "dm-"@),
        entry.dm_name == Some(name),
        entry.dm_uuid == Some(uuid),
        crate::text::trimmed(name@) == crate::detach::mapping_name(vg_name, lv_name),
        crate::detach::mapped_group(crate::detach::mapping_name(vg_name, lv_name)) == Some(vg_name),
    ensures
        with_mapped(vg_name, lv_name, verified, entry, found) is Ok ==> !found
            && crate::text::trimmed(uuid@) == "LVM-"@ + bare(verified.vg_uuid) + bare(
            verified.lv_uuid,
        ),
        with_mapped(vg_name, lv_name, verified, entry, found) matches Ok(now) ==> now,
{
}

/// A device is the attachment's own exactly when it is the NBD device or is named
/// like one of its partitions.
pub proof fn own_devices_are_named_after_the_nbd_device(name: Seq<char>, nbd: Seq<char>)
    ensures
        own_name(name, nbd) <==> name == nbd || (crate::text::starts_with(name, nbd + "p"@)
            && name.len() > nbd.len() + 1 && forall|i: int|
            nbd.len() + 1 <= i < name.len() ==> '0' <= #[trigger] name[i] <= '9'),
{
    reveal_strlit("p");
    let prefix = nbd + "p"@;
    if crate::text::starts_with(name, prefix) {
        let suffix = crate::text::after_prefix(name, prefix)->Some_0;
        assert forall|i: int| 0 <= i < suffix.len() implies #[trigger] suffix[i] == name[i
            + prefix.len()] by {}
        if crate::text::all_digits(suffix) {
            assert forall|i: int| nbd.len() + 1 <= i < name.len() implies '0' <= #[trigger] name[i]
                <= '9' by {
                assert(crate::text::is_digit(suffix[i - prefix.len()]));
            }
        }
        if forall|i: int| nbd.len() + 1 <= i < name.len() ==> '0' <= #[trigger] name[i] <= '9' {
            assert forall|i: int| 0 <= i < suffix.len() implies crate::text::is_digit(
                #[trigger] suffix[i],
            ) by {
                assert('0' <= name[i + prefix.len()] <= '9');
            }
        }
    }
}

/// Every device of an accepted identity is the NBD device or one of its
/// partitions.
pub proof fn accepted_identities_hold_own_devices(
    nbd: Seq<char>,
    lv_name: Seq<char>,
    verified: Verified,
    lv_names: Seq<Seq<char>>,
    i: int,
)
    requires
        persisted_complaint("/dev/"@ + nbd, lv_name, verified, lv_names) is None,
        0 <= i < verified.devices.len(),
    ensures
        crate::text::after_prefix(verified.devices[i].path, "/dev/"@) matches Some(name)
            && own_name(name, nbd),
{
    crate::text::prefixes_come_off("/dev/"@, nbd);
    lemma_persisted_devices(verified.devices, nbd, 0);
    assert(persisted_device_complaint(verified.devices, nbd, i) is None);
}

} // verus!
