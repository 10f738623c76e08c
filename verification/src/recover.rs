//! Recovery of an attachment whose server has died.
//!
//! What recovery may do is decided by root-controlled state, independent of
//! reads from a filesystem whose NBD server is gone. Every observation here is
//! kernel metadata; none opens a file on the mounted volume.

use vstd::prelude::*;

use crate::command::MAX_OUTPUT_BYTES;
use crate::detach::{
    logical_volume_mapping, mapped_volume_group, observe_kernel, DetachObservation,
};
use crate::lvm_preflight::{
    owned, validate_recovery_identity, verify_recovery_device_identity,
    verify_recovery_rollback_mapping, VerifiedLvm,
};
use crate::probe::unescape;
use crate::state::BoundDeviceRecord;
use crate::sysfs::{
    device_number, find_entry, invalid, is_nbd_partition, number_of_entry, BlockEntry, BlockTree,
    ProbeError,
};
use crate::text::{
    clone_list, clone_optional, comes_before, from_utf8, has_prefix, list_holds, parse_upto, same,
    same_list, same_optional, sort, split_lines, split_once, split_text, split_words,
    strip_prefix, trim,
};

verus! {

broadcast use vstd::seq::group_seq_axioms;

/// The kernel identity of one block device.
#[derive(Debug, PartialEq, Eq)]
pub struct BlockIdentity {
    pub name: String,
    pub device: (u32, u32),
    pub dm_name: Option<String>,
    pub dm_uuid: Option<String>,
    pub slaves: Vec<String>,
}

/// The texts of a [`BlockIdentity`].
pub struct Node {
    pub name: Seq<char>,
    pub device: (u32, u32),
    pub dm_name: Option<Seq<char>>,
    pub dm_uuid: Option<Seq<char>>,
    pub slaves: Seq<Seq<char>>,
}

impl View for BlockIdentity {
    type V = Node;

    open spec fn view(&self) -> Node {
        Node {
            name: self.name@,
            device: self.device,
            dm_name: crate::text::optional(self.dm_name),
            dm_uuid: crate::text::optional(self.dm_uuid),
            slaves: crate::text::strings(self.slaves@),
        }
    }
}

impl Clone for BlockIdentity {
    fn clone(&self) -> (res: Self)
        ensures
            res@ == self@,
    {
        BlockIdentity {
            name: self.name.clone(),
            device: self.device,
            dm_name: clone_optional(&self.dm_name),
            dm_uuid: clone_optional(&self.dm_uuid),
            slaves: clone_list(&self.slaves),
        }
    }
}

impl BlockIdentity {
    /// Equality of every part.
    pub fn matches(&self, other: &BlockIdentity) -> (r: bool)
        ensures
            r == (self@ == other@),
    {
        same(self.name.as_str(), other.name.as_str()) && self.device.0 == other.device.0
            && self.device.1 == other.device.1 && same_optional(&self.dm_name, &other.dm_name)
            && same_optional(&self.dm_uuid, &other.dm_uuid) && same_list(
            &self.slaves,
            &other.slaves,
        )
    }
}

/// The texts of a list of identities.
pub open spec fn nodes_view(nodes: Seq<BlockIdentity>) -> Seq<Node> {
    nodes.map_values(|n: BlockIdentity| n@)
}

/// The kernel identities that an attach saw once its volume group was active.
#[derive(Debug, PartialEq, Eq)]
pub struct RecoveryProof {
    pub nodes: Vec<BlockIdentity>,
    /// The attach saw that the mount target was empty before it published this.
    pub mount_permitted: bool,
}

impl Clone for RecoveryProof {
    fn clone(&self) -> (res: Self)
        ensures
            nodes_view(res.nodes@) == nodes_view(self.nodes@),
            res.mount_permitted == self.mount_permitted,
    {
        let mut nodes: Vec<BlockIdentity> = Vec::new();
        let mut i: usize = 0;
        while i < self.nodes.len()
            invariant
                i <= self.nodes.len(),
                nodes.len() == i,
                forall|k: int| 0 <= k < i ==> (#[trigger] nodes@[k])@ == self.nodes@[k]@,
            decreases self.nodes.len() - i,
        {
            nodes.push(self.nodes[i].clone());
            i += 1;
        }
        assert(nodes_view(nodes@) =~= nodes_view(self.nodes@));
        RecoveryProof { nodes, mount_permitted: self.mount_permitted }
    }
}

/// The LVM identity that an attach verified before it activated anything.
pub struct RecoveryIntent {
    pub verified: VerifiedLvm,
}

impl RecoveryIntent {
    pub fn new(verified: &VerifiedLvm) -> (r: Self)
        ensures
            r.verified@ == verified@,
    {
        RecoveryIntent { verified: verified.clone() }
    }

    pub fn verified(&self) -> (r: &VerifiedLvm)
        ensures
            *r == self.verified,
    {
        &self.verified
    }

    /// Hold the intent to what a recovery may rely on.
    pub fn validate(&self, record: &BoundDeviceRecord) -> (r: Result<(), ProbeError>)
        ensures
            crate::sysfs::passes(
                r,
                crate::lvm_preflight::persisted_complaint(
                    record.device@,
                    record.attachment.lv_name@,
                    self.verified@,
                    self.verified.lvs.keys(),
                ),
            ),
    {
        validate_recovery_identity(record, &self.verified)
    }
}

impl Clone for RecoveryIntent {
    fn clone(&self) -> (res: Self)
        ensures
            res.verified@ == self.verified@,
    {
        RecoveryIntent { verified: self.verified.clone() }
    }
}

// ---------- the inventory ----------

/// How many devices, and how many neighbours of one, a recovery looks at.
pub const MAX_NODES: usize = 64;

/// The names in a listing, in order.
pub open spec fn listing(list: Option<Vec<String>>) -> Result<
    Seq<Seq<char>>,
    crate::sysfs::Complaint,
> {
    match list {
        None => Err(crate::sysfs::Complaint::Unreadable),
        Some(names) => if names@.len() > MAX_NODES {
            Err(
                crate::sysfs::Complaint::Invalid(
                    "recovery topology exceeds the supported bound"@,
                ),
            )
        } else {
            Ok(crate::text::sorted(crate::text::strings(names@)))
        },
    }
}

fn names(list: &Option<Vec<String>>) -> (r: Result<Vec<String>, ProbeError>)
    ensures
        match r {
            Ok(v) => listing(*list) == Ok::<Seq<Seq<char>>, crate::sysfs::Complaint>(
                crate::text::strings(v@),
            ),
            Err(e) => listing(*list) == Err::<Seq<Seq<char>>, crate::sysfs::Complaint>(e@),
        },
{
    match list {
        None => Err(ProbeError::Unreadable),
        Some(v) => {
            if v.len() > MAX_NODES {
                return Err(invalid("recovery topology exceeds the supported bound"));
            }
            Ok(sort(v))
        },
    }
}

/// What an entry is to the attachment: nothing, or a device with its mapping
/// names and what it is built on.
pub open spec fn part_of(
    entries: Seq<BlockEntry>,
    entry: BlockEntry,
    nbd: Seq<char>,
    vg: Seq<char>,
) -> Result<
    Option<(Option<Seq<char>>, Option<Seq<char>>, Seq<Seq<char>>)>,
    crate::sysfs::Complaint,
> {
    match crate::detach::on_device(entries, entry.name@, nbd) {
        Err(c) => Err(c),
        Ok(true) => Ok(Some((None, None, Seq::empty()))),
        Ok(false) => if !crate::text::starts_with(entry.name@, "dm-"@) {
            Ok(None)
        } else {
            match entry.dm_name {
                None => Err(crate::sysfs::Complaint::Unreadable),
                Some(text) => {
                    let dm_name = crate::text::trimmed(text@);
                    if crate::detach::mapped_group(dm_name) != Some(vg) {
                        Ok(None)
                    } else {
                        match entry.dm_uuid {
                            None => Err(crate::sysfs::Complaint::Unreadable),
                            Some(id) => {
                                let uuid = crate::text::trimmed(id@);
                                if !crate::text::starts_with(uuid, "LVM-"@) {
                                    Err(
                                        crate::sysfs::Complaint::Invalid(
                                            "recovery mapping is not an LVM device"@,
                                        ),
                                    )
                                } else {
                                    match listing(entry.slaves) {
                                        Err(c) => Err(c),
                                        Ok(slaves) => Ok(
                                            Some((Some(dm_name), Some(uuid), slaves)),
                                        ),
                                    }
                                }
                            },
                        }
                    }
                },
            }
        },
    }
}

/// The devices of the attachment among the first `n` entries.
pub open spec fn nodes_upto(
    entries: Seq<BlockEntry>,
    nbd: Seq<char>,
    vg: Seq<char>,
    n: nat,
) -> Result<Seq<Node>, crate::sysfs::Complaint>
    decreases n,
{
    if n == 0 {
        Ok(Seq::empty())
    } else {
        match nodes_upto(entries, nbd, vg, (n - 1) as nat) {
            Err(c) => Err(c),
            Ok(before) => match part_of(entries, entries[n - 1], nbd, vg) {
                Err(c) => Err(c),
                Ok(None) => Ok(before),
                Ok(Some((dm_name, dm_uuid, slaves))) => if before.len() >= MAX_NODES {
                    Err(
                        crate::sysfs::Complaint::Invalid(
                            "recovery topology exceeds the supported bound"@,
                        ),
                    )
                } else {
                    match crate::sysfs::entry_number(entries[n - 1]) {
                        Err(c) => Err(c),
                        Ok(device) => Ok(
                            before.push(
                                Node { name: entries[n - 1].name@, device, dm_name, dm_uuid, slaves },
                            ),
                        ),
                    }
                },
            },
        }
    }
}

/// Some node has that name.
pub open spec fn node_named(nodes: Seq<Node>, name: Seq<char>) -> bool {
    exists|i: int| 0 <= i < nodes.len() && (#[trigger] nodes[i]).name == name
}

/// Some node has that name and is built on the given device.
pub open spec fn node_on(nodes: Seq<Node>, name: Seq<char>, slave: Seq<char>) -> bool {
    exists|i: int|
        0 <= i < nodes.len() && (#[trigger] nodes[i]).name == name && nodes[i].slaves.contains(
            slave,
        )
}

/// The holders of a device.
pub open spec fn holders_of(entries: Seq<BlockEntry>, name: Seq<char>) -> Result<
    Seq<Seq<char>>,
    crate::sysfs::Complaint,
> {
    match crate::sysfs::entry_named(entries, name) {
        None => Err(crate::sysfs::Complaint::Unreadable),
        Some(entry) => listing(entry.holders),
    }
}

/// Every holder from `i` on is a node that is built on the device.
pub open spec fn holders_known(
    nodes: Seq<Node>,
    holders: Seq<Seq<char>>,
    name: Seq<char>,
    i: int,
) -> bool {
    forall|k: int| i <= k < holders.len() ==> node_on(nodes, #[trigger] holders[k], name)
}

/// The first failure among the backing devices from `i` on.
pub open spec fn slaves_known(
    entries: Seq<BlockEntry>,
    nodes: Seq<Node>,
    name: Seq<char>,
    slaves: Seq<Seq<char>>,
    i: int,
) -> Result<(), crate::sysfs::Complaint>
    decreases slaves.len() - i,
{
    if i < 0 || i >= slaves.len() {
        Ok(())
    } else if !node_named(nodes, slaves[i]) {
        Err(
            crate::sysfs::Complaint::Invalid(
                "recovery mapping has an unrecorded backing device"@,
            ),
        )
    } else {
        match holders_of(entries, slaves[i]) {
            Err(c) => Err(c),
            Ok(holders) => if !holders.contains(name) {
                Err(
                    crate::sysfs::Complaint::Invalid(
                        "inconsistent recovery dependency observation"@,
                    ),
                )
            } else {
                slaves_known(entries, nodes, name, slaves, i + 1)
            },
        }
    }
}

/// The first failure among the nodes from `i` on: every holder and every
/// backing device of a node is a node itself, and both sides agree.
pub open spec fn nodes_closed(entries: Seq<BlockEntry>, nodes: Seq<Node>, i: int) -> Result<
    (),
    crate::sysfs::Complaint,
>
    decreases nodes.len() - i,
{
    if i < 0 || i >= nodes.len() {
        Ok(())
    } else {
        match holders_of(entries, nodes[i].name) {
            Err(c) => Err(c),
            Ok(holders) => if !holders_known(nodes, holders, nodes[i].name, 0) {
                Err(
                    crate::sysfs::Complaint::Invalid(
                        "unrecorded holder or inconsistent recovery topology"@,
                    ),
                )
            } else {
                match slaves_known(entries, nodes, nodes[i].name, nodes[i].slaves, 0) {
                    Err(c) => Err(c),
                    Ok(()) => nodes_closed(entries, nodes, i + 1),
                }
            },
        }
    }
}

/// A list with one more node, put after those whose names do not come after it.
pub open spec fn node_placed(v: Seq<Node>, node: Node) -> Seq<Node>
    decreases v.len(),
{
    if v.len() > 0 && crate::text::less(node.name, v.last().name) {
        node_placed(v.drop_last(), node).push(v.last())
    } else {
        v.push(node)
    }
}

/// The nodes in the order of their names.
pub open spec fn nodes_sorted(v: Seq<Node>) -> Seq<Node>
    decreases v.len(),
{
    if v.len() == 0 {
        Seq::empty()
    } else {
        node_placed(nodes_sorted(v.drop_last()), v.last())
    }
}

/// The devices of the attachment, in the order of their names.
pub open spec fn inventoried(
    record: BoundDeviceRecord,
    entries: Seq<BlockEntry>,
    odd_names: bool,
) -> Result<Seq<Node>, crate::sysfs::Complaint> {
    match crate::text::after_prefix(record.device@, "/dev/"@) {
        None => Err(crate::sysfs::Complaint::Invalid("invalid NBD path"@)),
        Some(nbd) => if odd_names {
            Err(crate::sysfs::Complaint::Invalid("invalid kernel block name"@))
        } else {
            match nodes_upto(entries, nbd, record.attachment.vg_name@, entries.len()) {
                Err(c) => Err(c),
                Ok(nodes) => if !node_named(nodes, nbd) {
                    Err(
                        crate::sysfs::Complaint::Invalid(
                            "recorded NBD kernel device is missing"@,
                        ),
                    )
                } else {
                    match nodes_closed(entries, nodes, 0) {
                        Err(c) => Err(c),
                        Ok(()) => Ok(nodes_sorted(nodes)),
                    }
                },
            }
        },
    }
}

/// The outcome says what the model says about the nodes.
pub open spec fn lists(
    r: Result<Vec<BlockIdentity>, ProbeError>,
    s: Result<Seq<Node>, crate::sysfs::Complaint>,
) -> bool {
    match r {
        Ok(v) => s == Ok::<Seq<Node>, crate::sysfs::Complaint>(nodes_view(v@)),
        Err(e) => s == Err::<Seq<Node>, crate::sysfs::Complaint>(e@),
    }
}

proof fn lemma_nodes_stop(entries: Seq<BlockEntry>, nbd: Seq<char>, vg: Seq<char>, n: nat)
    requires
        n <= entries.len(),
        nodes_upto(entries, nbd, vg, n) is Err,
    ensures
        nodes_upto(entries, nbd, vg, entries.len()) == nodes_upto(entries, nbd, vg, n),
    decreases entries.len() - n,
{
    if n < entries.len() {
        lemma_nodes_stop(entries, nbd, vg, n + 1);
    }
}

fn examine(entries: &Vec<BlockEntry>, entry: &BlockEntry, nbd: &str, vg: &str) -> (r: Result<
    Option<(Option<String>, Option<String>, Vec<String>)>,
    ProbeError,
>)
    ensures
        match r {
            Ok(None) => part_of(entries@, *entry, nbd@, vg@) == Ok::<
                Option<(Option<Seq<char>>, Option<Seq<char>>, Seq<Seq<char>>)>,
                crate::sysfs::Complaint,
            >(None),
            Ok(Some((dm_name, dm_uuid, slaves))) => part_of(entries@, *entry, nbd@, vg@) == Ok::<
                Option<(Option<Seq<char>>, Option<Seq<char>>, Seq<Seq<char>>)>,
                crate::sysfs::Complaint,
            >(
                Some(
                    (
                        crate::text::optional(dm_name),
                        crate::text::optional(dm_uuid),
                        crate::text::strings(slaves@),
                    ),
                ),
            ),
            Err(e) => part_of(entries@, *entry, nbd@, vg@) == Err::<
                Option<(Option<Seq<char>>, Option<Seq<char>>, Seq<Seq<char>>)>,
                crate::sysfs::Complaint,
            >(e@),
        },
{
    let name = entry.name.as_str();
    let own = if same(name, nbd) {
        true
    } else {
        match is_nbd_partition(entries, name, nbd) {
            Ok(own) => own,
            Err(e) => return Err(e),
        }
    };
    if own {
        let none: Vec<String> = Vec::new();
        assert(crate::text::strings(none@) =~= Seq::<Seq<char>>::empty());
        return Ok(Some((None, None, none)));
    }
    if !has_prefix(name, "dm-") {
        return Ok(None);
    }
    let dm_name = match &entry.dm_name {
        Some(text) => trim(text.as_str()),
        None => return Err(ProbeError::Unreadable),
    };
    match mapped_volume_group(dm_name) {
        Some(group) => {
            if !same(group.as_str(), vg) {
                return Ok(None);
            }
        },
        None => return Ok(None),
    }
    let uuid = match &entry.dm_uuid {
        Some(text) => trim(text.as_str()),
        None => return Err(ProbeError::Unreadable),
    };
    if !has_prefix(uuid, "LVM-") {
        return Err(invalid("recovery mapping is not an LVM device"));
    }
    match names(&entry.slaves) {
        Ok(slaves) => Ok(Some((Some(dm_name.to_owned()), Some(uuid.to_owned()), slaves))),
        Err(e) => Err(e),
    }
}

fn gather_nodes(entries: &Vec<BlockEntry>, nbd: &str, vg: &str) -> (r: Result<
    Vec<BlockIdentity>,
    ProbeError,
>)
    ensures
        lists(r, nodes_upto(entries@, nbd@, vg@, entries@.len())),
{
    let mut nodes: Vec<BlockIdentity> = Vec::new();
    let mut i: usize = 0;
    assert(nodes_view(nodes@) =~= Seq::<Node>::empty());
    while i < entries.len()
        invariant
            i <= entries.len(),
            nodes_upto(entries@, nbd@, vg@, i as nat) == Ok::<Seq<Node>, crate::sysfs::Complaint>(
                nodes_view(nodes@),
            ),
        decreases entries.len() - i,
    {
        let entry = &entries[i];
        let ghost before = nodes@;
        let found = match examine(entries, entry, nbd, vg) {
            Ok(found) => found,
            Err(e) => {
                proof {
                    lemma_nodes_stop(entries@, nbd@, vg@, (i + 1) as nat);
                }
                return Err(e);
            },
        };
        match found {
            Some((dm_name, dm_uuid, slaves)) => {
                assert(nodes@.len() == nodes_view(nodes@).len());
                if nodes.len() >= MAX_NODES {
                    proof {
                        lemma_nodes_stop(entries@, nbd@, vg@, (i + 1) as nat);
                    }
                    return Err(invalid("recovery topology exceeds the supported bound"));
                }
                let device = match number_of_entry(entry) {
                    Ok(device) => device,
                    Err(e) => {
                        proof {
                            lemma_nodes_stop(entries@, nbd@, vg@, (i + 1) as nat);
                        }
                        return Err(e);
                    },
                };
                let node = BlockIdentity {
                    name: entry.name.clone(),
                    device,
                    dm_name,
                    dm_uuid,
                    slaves,
                };
                nodes.push(node);
                assert(nodes_view(nodes@) =~= nodes_view(before).push(node@));
            },
            None => {},
        }
        i += 1;
    }
    Ok(nodes)
}

fn is_node_named(nodes: &Vec<BlockIdentity>, name: &str) -> (r: bool)
    ensures
        r == node_named(nodes_view(nodes@), name@),
{
    let ghost all = nodes_view(nodes@);
    let mut i: usize = 0;
    while i < nodes.len()
        invariant
            i <= nodes.len(),
            all == nodes_view(nodes@),
            forall|k: int| 0 <= k < i ==> (#[trigger] all[k]).name != name@,
        decreases nodes.len() - i,
    {
        assert(all[i as int] == nodes@[i as int]@);
        if same(nodes[i].name.as_str(), name) {
            return true;
        }
        i += 1;
    }
    false
}

fn is_node_on(nodes: &Vec<BlockIdentity>, name: &str, slave: &str) -> (r: bool)
    ensures
        r == node_on(nodes_view(nodes@), name@, slave@),
{
    let ghost all = nodes_view(nodes@);
    let mut i: usize = 0;
    while i < nodes.len()
        invariant
            i <= nodes.len(),
            all == nodes_view(nodes@),
            forall|k: int|
                0 <= k < i ==> !((#[trigger] all[k]).name == name@ && all[k].slaves.contains(
                    slave@,
                )),
        decreases nodes.len() - i,
    {
        assert(all[i as int] == nodes@[i as int]@);
        if same(nodes[i].name.as_str(), name) && list_holds(&nodes[i].slaves, slave) {
            return true;
        }
        i += 1;
    }
    false
}

fn holders(entries: &Vec<BlockEntry>, name: &str) -> (r: Result<Vec<String>, ProbeError>)
    ensures
        match r {
            Ok(v) => holders_of(entries@, name@) == Ok::<
                Seq<Seq<char>>,
                crate::sysfs::Complaint,
            >(crate::text::strings(v@)),
            Err(e) => holders_of(entries@, name@) == Err::<
                Seq<Seq<char>>,
                crate::sysfs::Complaint,
            >(e@),
        },
{
    match find_entry(entries, name) {
        Some(entry) => names(&entry.holders),
        None => Err(ProbeError::Unreadable),
    }
}

fn check_holders(nodes: &Vec<BlockIdentity>, list: &Vec<String>, name: &str) -> (r: bool)
    ensures
        r == holders_known(nodes_view(nodes@), crate::text::strings(list@), name@, 0),
{
    let ghost all = nodes_view(nodes@);
    let ghost texts = crate::text::strings(list@);
    let mut i: usize = 0;
    while i < list.len()
        invariant
            i <= list.len(),
            all == nodes_view(nodes@),
            texts == crate::text::strings(list@),
            forall|k: int| 0 <= k < i ==> node_on(all, #[trigger] texts[k], name@),
        decreases list.len() - i,
    {
        assert(texts[i as int] == list@[i as int]@);
        if !is_node_on(nodes, list[i].as_str(), name) {
            return false;
        }
        i += 1;
    }
    true
}

fn check_slaves(
    entries: &Vec<BlockEntry>,
    nodes: &Vec<BlockIdentity>,
    name: &str,
    list: &Vec<String>,
) -> (r: Result<(), ProbeError>)
    ensures
        crate::sysfs::agrees(
            r,
            slaves_known(
                entries@,
                nodes_view(nodes@),
                name@,
                crate::text::strings(list@),
                0,
            ),
        ),
{
    let ghost all = nodes_view(nodes@);
    let ghost texts = crate::text::strings(list@);
    let mut i: usize = 0;
    while i < list.len()
        invariant
            i <= list.len(),
            all == nodes_view(nodes@),
            texts == crate::text::strings(list@),
            slaves_known(entries@, all, name@, texts, 0) == slaves_known(
                entries@,
                all,
                name@,
                texts,
                i as int,
            ),
        decreases list.len() - i,
    {
        assert(texts[i as int] == list@[i as int]@);
        if !is_node_named(nodes, list[i].as_str()) {
            return Err(invalid("recovery mapping has an unrecorded backing device"));
        }
        let above = match holders(entries, list[i].as_str()) {
            Ok(above) => above,
            Err(e) => return Err(e),
        };
        if !list_holds(&above, name) {
            return Err(invalid("inconsistent recovery dependency observation"));
        }
        i += 1;
    }
    Ok(())
}

fn check_closed(entries: &Vec<BlockEntry>, nodes: &Vec<BlockIdentity>) -> (r: Result<
    (),
    ProbeError,
>)
    ensures
        crate::sysfs::agrees(r, nodes_closed(entries@, nodes_view(nodes@), 0)),
{
    let ghost all = nodes_view(nodes@);
    let mut i: usize = 0;
    while i < nodes.len()
        invariant
            i <= nodes.len(),
            all == nodes_view(nodes@),
            nodes_closed(entries@, all, 0) == nodes_closed(entries@, all, i as int),
        decreases nodes.len() - i,
    {
        assert(all[i as int] == nodes@[i as int]@);
        let name = nodes[i].name.as_str();
        let above = match holders(entries, name) {
            Ok(above) => above,
            Err(e) => return Err(e),
        };
        if !check_holders(nodes, &above, name) {
            return Err(invalid("unrecorded holder or inconsistent recovery topology"));
        }
        match check_slaves(entries, nodes, name, &nodes[i].slaves) {
            Ok(()) => {},
            Err(e) => return Err(e),
        }
        i += 1;
    }
    Ok(())
}

fn place_node(v: &mut Vec<BlockIdentity>, node: BlockIdentity)
    ensures
        nodes_view(final(v)@) == node_placed(nodes_view(old(v)@), node@),
{
    let mut i: usize = v.len();
    let ghost all = nodes_view(v@);
    let ghost it = node@;
    assert(all.take(i as int) =~= all);
    assert(node_placed(all, it) =~= node_placed(all.take(i as int), it) + all.skip(i as int));
    while i > 0 && comes_before(node.name.as_str(), v[i - 1].name.as_str())
        invariant
            i <= v.len(),
            v@ == old(v)@,
            all == nodes_view(v@),
            it == node@,
            node_placed(all, it) == node_placed(all.take(i as int), it) + all.skip(i as int),
        decreases i,
    {
        proof {
            let head = all.take(i as int);
            assert(head.last() == v@[i - 1]@);
            assert(head.drop_last() =~= all.take(i - 1));
            assert(node_placed(head, it) + all.skip(i as int) =~= node_placed(
                all.take(i - 1),
                it,
            ) + all.skip(i - 1));
        }
        i -= 1;
    }
    proof {
        let head = all.take(i as int);
        if i > 0 {
            assert(head.last() == v@[i - 1]@);
        }
        assert(node_placed(head, it) =~= head.push(it));
        assert(node_placed(all, it) =~= all.insert(i as int, it));
    }
    v.insert(i, node);
    assert(nodes_view(v@) =~= all.insert(i as int, it));
}

fn sort_nodes(nodes: &Vec<BlockIdentity>) -> (r: Vec<BlockIdentity>)
    ensures
        nodes_view(r@) == nodes_sorted(nodes_view(nodes@)),
{
    let ghost all = nodes_view(nodes@);
    let mut out: Vec<BlockIdentity> = Vec::new();
    let mut i: usize = 0;
    assert(nodes_view(out@) =~= nodes_sorted(all.take(0)));
    while i < nodes.len()
        invariant
            i <= nodes.len(),
            all == nodes_view(nodes@),
            nodes_view(out@) == nodes_sorted(all.take(i as int)),
        decreases nodes.len() - i,
    {
        proof {
            assert(all.take(i + 1).drop_last() =~= all.take(i as int));
            assert(all.take(i + 1).last() == nodes@[i as int]@);
        }
        place_node(&mut out, nodes[i].clone());
        i += 1;
    }
    assert(all.take(i as int) =~= all);
    out
}

/// The devices of the attachment, in the order of their names. Every holder
/// and every backing device must be one of them: a foreign mapping, or a
/// topology that changed while it was read, is refused.
pub fn inventory(record: &BoundDeviceRecord, tree: &BlockTree) -> (r: Result<
    Vec<BlockIdentity>,
    ProbeError,
>)
    ensures
        lists(r, inventoried(*record, tree.entries@, tree.odd_names)),
{
    let nbd = match strip_prefix(record.device.as_str(), "/dev/") {
        Some(nbd) => nbd,
        None => return Err(invalid("invalid NBD path")),
    };
    if tree.odd_names {
        return Err(invalid("invalid kernel block name"));
    }
    let nodes = match gather_nodes(&tree.entries, nbd, record.attachment.vg_name.as_str()) {
        Ok(nodes) => nodes,
        Err(e) => return Err(e),
    };
    if !is_node_named(&nodes, nbd) {
        return Err(invalid("recorded NBD kernel device is missing"));
    }
    match check_closed(&tree.entries, &nodes) {
        Ok(()) => {},
        Err(e) => return Err(e),
    }
    Ok(sort_nodes(&nodes))
}

// ---------- mounts ----------

/// Some node has that device number.
pub open spec fn node_numbered(nodes: Seq<Node>, device: (u32, u32)) -> bool {
    exists|i: int| 0 <= i < nodes.len() && (#[trigger] nodes[i]).device == device
}

/// Whether a line of the mount table leaves the attachment alone: no device of
/// it is mounted anywhere but at the recorded target.
pub open spec fn line_harmless(line: Seq<char>, mountpoint: Seq<char>, nodes: Seq<Node>) -> Result<
    (),
    crate::sysfs::Complaint,
> {
    let incomplete = crate::sysfs::Complaint::Invalid("incomplete mountinfo"@);
    if crate::text::trimmed(line).len() == 0 {
        Ok(())
    } else {
        match crate::text::cut(line, " - "@) {
            None => Err(incomplete),
            Some((left, _)) => {
                let fields = crate::text::words(left);
                if fields.len() < 6 {
                    Err(incomplete)
                } else {
                    match crate::sysfs::number_of(fields[2]) {
                        Err(c) => Err(c),
                        Ok(device) => if node_numbered(nodes, device) && crate::probe::unescaped(
                            fields[4],
                        ) != mountpoint {
                            Err(
                                crate::sysfs::Complaint::Invalid(
                                    "recorded block device has another mount; stop all workload mounts before recovery"@,
                                ),
                            )
                        } else {
                            Ok(())
                        },
                    }
                }
            },
        }
    }
}

/// The first failure among the lines from `i` on.
pub open spec fn lines_harmless(
    lines: Seq<Seq<char>>,
    mountpoint: Seq<char>,
    nodes: Seq<Node>,
    i: int,
) -> Result<(), crate::sysfs::Complaint>
    decreases lines.len() - i,
{
    if i < 0 || i >= lines.len() {
        Ok(())
    } else {
        match line_harmless(lines[i], mountpoint, nodes) {
            Err(c) => Err(c),
            Ok(()) => lines_harmless(lines, mountpoint, nodes, i + 1),
        }
    }
}

fn is_node_numbered(nodes: &Vec<BlockIdentity>, device: (u32, u32)) -> (r: bool)
    ensures
        r == node_numbered(nodes_view(nodes@), device),
{
    let ghost all = nodes_view(nodes@);
    let mut i: usize = 0;
    while i < nodes.len()
        invariant
            i <= nodes.len(),
            all == nodes_view(nodes@),
            forall|k: int| 0 <= k < i ==> (#[trigger] all[k]).device != device,
        decreases nodes.len() - i,
    {
        assert(all[i as int] == nodes@[i as int]@);
        if nodes[i].device.0 == device.0 && nodes[i].device.1 == device.1 {
            assert(all[i as int].device == device);
            return true;
        }
        i += 1;
    }
    false
}

fn check_line(line: &str, mountpoint: &str, nodes: &Vec<BlockIdentity>) -> (r: Result<
    (),
    ProbeError,
>)
    ensures
        crate::sysfs::agrees(r, line_harmless(line@, mountpoint@, nodes_view(nodes@))),
{
    if trim(line).is_empty() {
        return Ok(());
    }
    let (left, right) = match split_once(line, " - ") {
        Some(p) => p,
        None => return Err(invalid("incomplete mountinfo")),
    };
    assert(crate::text::cut(line@, " - "@) == Some((left@, right@)));
    let fields = split_words(left);
    assert(crate::text::words(left@).len() == fields@.len());
    if fields.len() < 6 {
        return Err(invalid("incomplete mountinfo"));
    }
    assert(crate::text::words(left@)[2] == fields@[2]@);
    assert(crate::text::words(left@)[4] == fields@[4]@);
    let device = match device_number(fields[2]) {
        Ok(device) => device,
        Err(e) => return Err(e),
    };
    if is_node_numbered(nodes, device) && !same(unescape(fields[4]).as_str(), mountpoint) {
        return Err(
            invalid(
                "recorded block device has another mount; stop all workload mounts before recovery",
            ),
        );
    }
    Ok(())
}

/// No device of the attachment is mounted anywhere but at the recorded target.
pub open spec fn mounts_harmless(
    record: BoundDeviceRecord,
    mounts: Seq<char>,
    nodes: Seq<Node>,
) -> Result<(), crate::sysfs::Complaint> {
    lines_harmless(crate::text::lines(mounts), record.attachment.mountpoint@, nodes, 0)
}

/// No device of the attachment may be mounted anywhere but at the recorded
/// target.
pub fn check_mounts(record: &BoundDeviceRecord, mounts: &str, nodes: &Vec<BlockIdentity>) -> (r:
    Result<(), ProbeError>)
    ensures
        crate::sysfs::agrees(r, mounts_harmless(*record, mounts@, nodes_view(nodes@))),
{
    let lines = split_lines(mounts);
    let mountpoint = record.attachment.mountpoint.as_str();
    let ghost texts = crate::text::lines(mounts@);
    let ghost all = nodes_view(nodes@);
    let mut i: usize = 0;
    while i < lines.len()
        invariant
            i <= lines.len(),
            texts == crate::text::texts(lines@),
            texts == crate::text::lines(mounts@),
            all == nodes_view(nodes@),
            mountpoint@ == record.attachment.mountpoint@,
            lines_harmless(texts, mountpoint@, all, 0) == lines_harmless(
                texts,
                mountpoint@,
                all,
                i as int,
            ),
        decreases lines.len() - i,
    {
        assert(texts[i as int] == lines@[i as int]@);
        match check_line(lines[i], mountpoint, nodes) {
            Ok(()) => {},
            Err(e) => return Err(e),
        }
        i += 1;
    }
    Ok(())
}

// ---------- the observation ----------

/// Every node is one of the proof's.
pub open spec fn all_proven(nodes: Seq<Node>, proof_nodes: Seq<Node>) -> bool {
    forall|i: int| 0 <= i < nodes.len() ==> proof_nodes.contains(#[trigger] nodes[i])
}

fn are_proven(nodes: &Vec<BlockIdentity>, proven: &Vec<BlockIdentity>) -> (r: bool)
    ensures
        r == all_proven(nodes_view(nodes@), nodes_view(proven@)),
{
    let ghost all = nodes_view(nodes@);
    let ghost known = nodes_view(proven@);
    let mut i: usize = 0;
    while i < nodes.len()
        invariant
            i <= nodes.len(),
            all == nodes_view(nodes@),
            known == nodes_view(proven@),
            forall|k: int| 0 <= k < i ==> known.contains(#[trigger] all[k]),
        decreases nodes.len() - i,
    {
        assert(all[i as int] == nodes@[i as int]@);
        let mut found = false;
        let mut j: usize = 0;
        while j < proven.len()
            invariant
                j <= proven.len(),
                i < nodes.len(),
                all == nodes_view(nodes@),
                known == nodes_view(proven@),
                found ==> known.contains(all[i as int]),
                !found ==> forall|k: int| 0 <= k < j ==> known[k] != all[i as int],
            decreases proven.len() - j,
        {
            assert(all[i as int] == nodes@[i as int]@);
            assert(known[j as int] == proven@[j as int]@);
            if nodes[i].matches(&proven[j]) {
                found = true;
            }
            j += 1;
        }
        if !found {
            assert(!known.contains(all[i as int]));
            return false;
        }
        i += 1;
    }
    true
}

/// What is live of an attachment that had not been proven yet: only mappings
/// of the group that the preflight verified, on the devices it verified.
pub open spec fn intent_observation(
    record: BoundDeviceRecord,
    verified: crate::lvm_preflight::Verified,
    mounts: Seq<char>,
    entries: Seq<BlockEntry>,
    odd_names: bool,
    observed: DetachObservation,
) -> Result<DetachObservation, crate::sysfs::Complaint> {
    if observed.mounted {
        Err(
            crate::sysfs::Complaint::Invalid(
                "pre-activation recovery identity never authorized an upper layer"@,
            ),
        )
    } else {
        match crate::lvm_preflight::devices_verified(record.device@, verified, entries, odd_names) {
            Err(c) => Err(c),
            Ok(()) => match if observed.vg_active {
                crate::lvm_preflight::recovery_verified(record, verified, entries, odd_names, false)
            } else if observed.nbd_in_use {
                Err(
                    crate::sysfs::Complaint::Invalid(
                        "pre-activation recovery identity has an unexpected holder"@,
                    ),
                )
            } else {
                Ok(())
            } {
                Err(c) => Err(c),
                Ok(()) => match inventoried(record, entries, odd_names) {
                    Err(c) => Err(c),
                    Ok(nodes) => match mounts_harmless(record, mounts, nodes) {
                        Err(c) => Err(c),
                        Ok(()) => Ok(observed),
                    },
                },
            },
        }
    }
}

/// What is live of a proven attachment: only devices that the proof holds.
pub open spec fn proof_observation(
    record: BoundDeviceRecord,
    proven: Seq<Node>,
    mount_permitted: bool,
    mounts: Seq<char>,
    entries: Seq<BlockEntry>,
    odd_names: bool,
    observed: DetachObservation,
) -> Result<DetachObservation, crate::sysfs::Complaint> {
    match inventoried(record, entries, odd_names) {
        Err(c) => Err(c),
        Ok(nodes) => if !all_proven(nodes, proven) {
            Err(
                crate::sysfs::Complaint::Invalid(
                    "kernel mapping identity changed since attach; refusing recovery"@,
                ),
            )
        } else if observed.mounted && !mount_permitted {
            Err(crate::sysfs::Complaint::Invalid("attachment never authorized a mount"@))
        } else {
            match mounts_harmless(record, mounts, nodes) {
                Err(c) => Err(c),
                Ok(()) => Ok(observed),
            }
        },
    }
}

/// What is live of an attachment whose server is gone.
pub open spec fn recovery_observation(
    record: BoundDeviceRecord,
    mounts: Seq<char>,
    entries: Seq<BlockEntry>,
    odd_names: bool,
) -> Result<DetachObservation, crate::sysfs::Complaint> {
    match crate::detach::observation(record, mounts, entries, None, false, false) {
        Err(c) => Err(c),
        Ok(observed) => match record.recovery {
            Some(proven) => proof_observation(
                record,
                nodes_view(proven.nodes@),
                proven.mount_permitted,
                mounts,
                entries,
                odd_names,
                observed,
            ),
            None => match record.recovery_intent {
                Some(intent) => intent_observation(
                    record,
                    intent.verified@,
                    mounts,
                    entries,
                    odd_names,
                    observed,
                ),
                None => if observed.is_clear() {
                    Ok(observed)
                } else {
                    Err(
                        crate::sysfs::Complaint::Invalid(
                            "legacy attachment has no independent recovery proof; refusing live cleanup"@,
                        ),
                    )
                },
            },
        },
    }
}

fn observe_intent(
    record: &BoundDeviceRecord,
    verified: &VerifiedLvm,
    mounts: &str,
    tree: &BlockTree,
    observed: DetachObservation,
) -> (r: Result<DetachObservation, ProbeError>)
    ensures
        crate::sysfs::agrees(
            r,
            intent_observation(
                *record,
                verified@,
                mounts@,
                tree.entries@,
                tree.odd_names,
                observed,
            ),
        ),
{
    if observed.mounted {
        return Err(invalid("pre-activation recovery identity never authorized an upper layer"));
    }
    match verify_recovery_device_identity(record, verified, tree) {
        Ok(()) => {},
        Err(e) => return Err(e),
    }
    if observed.vg_active {
        match verify_recovery_rollback_mapping(record, verified, tree) {
            Ok(()) => {},
            Err(e) => return Err(e),
        }
    } else if observed.nbd_in_use {
        return Err(invalid("pre-activation recovery identity has an unexpected holder"));
    }
    let nodes = match inventory(record, tree) {
        Ok(nodes) => nodes,
        Err(e) => return Err(e),
    };
    match check_mounts(record, mounts, &nodes) {
        Ok(()) => Ok(observed),
        Err(e) => Err(e),
    }
}

/// What is live of an attachment whose server is gone. Devices that are gone
/// mean that an earlier cleanup step completed; those that are there must be
/// the recorded ones, and new mappings or holders are never adopted.
pub fn observe(record: &BoundDeviceRecord, mounts: &str, tree: &BlockTree) -> (r: Result<
    DetachObservation,
    ProbeError,
>)
    ensures
        crate::sysfs::agrees(
            r,
            recovery_observation(*record, mounts@, tree.entries@, tree.odd_names),
        ),
{
    let none: Option<String> = None;
    let observed = match observe_kernel(record, mounts, tree, &none, false, false) {
        Ok(observed) => observed,
        Err(e) => return Err(e),
    };
    let proven = match &record.recovery {
        Some(proven) => proven,
        None => {
            return match &record.recovery_intent {
                Some(intent) => observe_intent(record, &intent.verified, mounts, tree, observed),
                None => if observed.clear() {
                    Ok(observed)
                } else {
                    Err(
                        invalid(
                            "legacy attachment has no independent recovery proof; refusing live cleanup",
                        ),
                    )
                },
            };
        },
    };
    let nodes = match inventory(record, tree) {
        Ok(nodes) => nodes,
        Err(e) => return Err(e),
    };
    if !are_proven(&nodes, &proven.nodes) {
        return Err(invalid("kernel mapping identity changed since attach; refusing recovery"));
    }
    if observed.mounted && !proven.mount_permitted {
        return Err(invalid("attachment never authorized a mount"));
    }
    match check_mounts(record, mounts, &nodes) {
        Ok(()) => Ok(observed),
        Err(e) => Err(e),
    }
}

/// Some node is the mapping of that name.
pub open spec fn node_mapped(nodes: Seq<Node>, dm_name: Seq<char>) -> bool {
    exists|i: int| 0 <= i < nodes.len() && (#[trigger] nodes[i]).dm_name == Some(dm_name)
}

fn is_node_mapped(nodes: &Vec<BlockIdentity>, dm_name: &str) -> (r: bool)
    ensures
        r == node_mapped(nodes_view(nodes@), dm_name@),
{
    let ghost all = nodes_view(nodes@);
    let mut i: usize = 0;
    while i < nodes.len()
        invariant
            i <= nodes.len(),
            all == nodes_view(nodes@),
            forall|k: int| 0 <= k < i ==> (#[trigger] all[k]).dm_name != Some(dm_name@),
        decreases nodes.len() - i,
    {
        assert(all[i as int] == nodes@[i as int]@);
        match &nodes[i].dm_name {
            Some(name) => {
                if same(name.as_str(), dm_name) {
                    assert(all[i as int].dm_name == Some(dm_name@));
                    return true;
                }
            },
            None => {},
        }
        i += 1;
    }
    false
}

/// The proof that an attach may publish once its group is active and before
/// anything is mounted.
pub open spec fn captured(
    record: BoundDeviceRecord,
    mounts: Seq<char>,
    entries: Seq<BlockEntry>,
    odd_names: bool,
) -> Result<Seq<Node>, crate::sysfs::Complaint> {
    match crate::detach::observation(record, mounts, entries, None, false, false) {
        Err(c) => Err(c),
        Ok(observed) => if observed.mounted || !observed.vg_active {
            Err(
                crate::sysfs::Complaint::Invalid(
                    "cannot record recovery identity without an active VG and an empty mount target"@,
                ),
            )
        } else {
            match inventoried(record, entries, odd_names) {
                Err(c) => Err(c),
                Ok(nodes) => if !node_mapped(
                    nodes,
                    crate::detach::mapping_name(
                        record.attachment.vg_name@,
                        record.attachment.lv_name@,
                    ),
                ) {
                    Err(
                        crate::sysfs::Complaint::Invalid(
                            "expected logical volume is absent before mount"@,
                        ),
                    )
                } else {
                    match mounts_harmless(record, mounts, nodes) {
                        Err(c) => Err(c),
                        Ok(()) => Ok(nodes),
                    }
                },
            }
        },
    }
}

/// Record what is there once the group is active and before anything is
/// mounted.
pub fn capture(record: &BoundDeviceRecord, mounts: &str, tree: &BlockTree) -> (r: Result<
    RecoveryProof,
    ProbeError,
>)
    ensures
        match r {
            Ok(proven) => proven.mount_permitted && captured(
                *record,
                mounts@,
                tree.entries@,
                tree.odd_names,
            ) == Ok::<Seq<Node>, crate::sysfs::Complaint>(nodes_view(proven.nodes@)),
            Err(e) => captured(*record, mounts@, tree.entries@, tree.odd_names) == Err::<
                Seq<Node>,
                crate::sysfs::Complaint,
            >(e@),
        },
{
    let none: Option<String> = None;
    let observed = match observe_kernel(record, mounts, tree, &none, false, false) {
        Ok(observed) => observed,
        Err(e) => return Err(e),
    };
    if observed.mounted || !observed.vg_active {
        return Err(
            invalid(
                "cannot record recovery identity without an active VG and an empty mount target",
            ),
        );
    }
    let nodes = match inventory(record, tree) {
        Ok(nodes) => nodes,
        Err(e) => return Err(e),
    };
    let lv = logical_volume_mapping(
        record.attachment.vg_name.as_str(),
        record.attachment.lv_name.as_str(),
    );
    if !is_node_mapped(&nodes, lv.as_str()) {
        return Err(invalid("expected logical volume is absent before mount"));
    }
    match check_mounts(record, mounts, &nodes) {
        Ok(()) => Ok(RecoveryProof { nodes, mount_permitted: true }),
        Err(e) => Err(e),
    }
}

// ---------- direct deactivation ----------

/// The first mapping among the nodes from `i` on.
pub open spec fn mapping_from(nodes: Seq<Node>, i: int) -> Option<int>
    decreases nodes.len() - i,
{
    if i < 0 || i >= nodes.len() {
        None
    } else if nodes[i].dm_name is Some {
        Some(i)
    } else {
        mapping_from(nodes, i + 1)
    }
}

/// Some node is built on the given device.
pub open spec fn built_on(nodes: Seq<Node>, name: Seq<char>) -> bool {
    exists|i: int| 0 <= i < nodes.len() && (#[trigger] nodes[i]).slaves.contains(name)
}

/// The one mapping among the nodes, if it is the expected one and nothing is
/// built on it. More than one needs the metadata of the group.
pub open spec fn single_mapping(nodes: Seq<Node>, expected: Seq<char>) -> Result<
    Node,
    crate::sysfs::Complaint,
> {
    match mapping_from(nodes, 0) {
        None => Err(
            crate::sysfs::Complaint::Invalid("recovery proof has no device-mapper target"@),
        ),
        Some(i) => if mapping_from(nodes, i + 1) is Some || nodes[i].dm_name != Some(expected)
            || nodes[i].dm_uuid is None || nodes[i].slaves.len() == 0 || built_on(
            nodes,
            nodes[i].name,
        ) {
            Err(
                crate::sysfs::Complaint::Invalid(
                    "direct deactivation requires one exact top-level target mapping"@,
                ),
            )
        } else {
            Ok(nodes[i])
        },
    }
}

fn find_mapping(nodes: &Vec<BlockIdentity>, start: usize) -> (r: Option<usize>)
    requires
        start <= nodes@.len(),
    ensures
        match r {
            Some(i) => mapping_from(nodes_view(nodes@), start as int) == Some(i as int) && start
                <= i < nodes@.len(),
            None => mapping_from(nodes_view(nodes@), start as int) is None,
        },
{
    let ghost all = nodes_view(nodes@);
    let mut i: usize = start;
    while i < nodes.len()
        invariant
            start <= i <= nodes.len(),
            all == nodes_view(nodes@),
            mapping_from(all, start as int) == mapping_from(all, i as int),
        decreases nodes.len() - i,
    {
        assert(all[i as int] == nodes@[i as int]@);
        if nodes[i].dm_name.is_some() {
            return Some(i);
        }
        i += 1;
    }
    None
}

fn is_built_on(nodes: &Vec<BlockIdentity>, name: &str) -> (r: bool)
    ensures
        r == built_on(nodes_view(nodes@), name@),
{
    let ghost all = nodes_view(nodes@);
    let mut i: usize = 0;
    while i < nodes.len()
        invariant
            i <= nodes.len(),
            all == nodes_view(nodes@),
            forall|k: int| 0 <= k < i ==> !(#[trigger] all[k]).slaves.contains(name@),
        decreases nodes.len() - i,
    {
        assert(all[i as int] == nodes@[i as int]@);
        if list_holds(&nodes[i].slaves, name) {
            return true;
        }
        i += 1;
    }
    false
}

/// The one mapping among the nodes, if it is the expected one and nothing is
/// built on it.
pub fn single_deactivation_mapping(nodes: &Vec<BlockIdentity>, expected_name: &str) -> (r: Result<
    BlockIdentity,
    ProbeError,
>)
    ensures
        match r {
            Ok(node) => single_mapping(nodes_view(nodes@), expected_name@) == Ok::<
                Node,
                crate::sysfs::Complaint,
            >(node@),
            Err(e) => single_mapping(nodes_view(nodes@), expected_name@) == Err::<
                Node,
                crate::sysfs::Complaint,
            >(e@),
        },
{
    let ghost all = nodes_view(nodes@);
    let i: usize = match find_mapping(nodes, 0) {
        Some(i) => i,
        None => return Err(invalid("recovery proof has no device-mapper target")),
    };
    assert(i < nodes.len());
    assert(all[i as int] == nodes@[i as int]@);
    let mapping = &nodes[i];
    let named = match &mapping.dm_name {
        Some(name) => same(name.as_str(), expected_name),
        None => false,
    };
    assert(named == (all[i as int].dm_name == Some(expected_name@)));
    assert(mapping.slaves@.len() == all[i as int].slaves.len());
    let next: usize = i + 1;
    if find_mapping(nodes, next).is_some() || !named || mapping.dm_uuid.is_none()
        || mapping.slaves.len() == 0 || is_built_on(nodes, mapping.name.as_str()) {
        return Err(invalid("direct deactivation requires one exact top-level target mapping"));
    }
    Ok(mapping.clone())
}

/// The mapping that may be removed directly, or that none is left.
pub open spec fn removal_target(
    record: BoundDeviceRecord,
    mounts: Seq<char>,
    entries: Seq<BlockEntry>,
    odd_names: bool,
) -> Result<Option<Node>, crate::sysfs::Complaint> {
    let expected = crate::detach::mapping_name(
        record.attachment.vg_name@,
        record.attachment.lv_name@,
    );
    match record.recovery {
        None => Err(
            crate::sysfs::Complaint::Invalid("attachment has no completed recovery proof"@),
        ),
        Some(proven) => match single_mapping(nodes_view(proven.nodes@), expected) {
            Err(c) => Err(c),
            Ok(_) => match recovery_observation(record, mounts, entries, odd_names) {
                Err(c) => Err(c),
                Ok(observed) => if observed.mounted {
                    Err(
                        crate::sysfs::Complaint::Invalid(
                            "cannot directly deactivate a mounted recovery mapping"@,
                        ),
                    )
                } else {
                    match inventoried(record, entries, odd_names) {
                        Err(c) => Err(c),
                        Ok(nodes) => if !all_proven(nodes, nodes_view(proven.nodes@)) {
                            Err(
                                crate::sysfs::Complaint::Invalid(
                                    "kernel mapping identity changed since attach; refusing direct deactivation"@,
                                ),
                            )
                        } else {
                            match mounts_harmless(record, mounts, nodes) {
                                Err(c) => Err(c),
                                Ok(()) => if !observed.vg_active {
                                    if observed.nbd_in_use {
                                        Err(
                                            crate::sysfs::Complaint::Invalid(
                                                "NBD still has an unverified user after mapping deactivation"@,
                                            ),
                                        )
                                    } else {
                                        Ok(None)
                                    }
                                } else {
                                    match single_mapping(nodes, expected) {
                                        Err(c) => Err(c),
                                        Ok(node) => Ok(Some(node)),
                                    }
                                },
                            }
                        },
                    }
                },
            },
        },
    }
}

/// The mapping that may be removed directly, or that none is left.
pub fn force_deactivation_target_at(
    record: &BoundDeviceRecord,
    mounts: &str,
    tree: &BlockTree,
) -> (r: Result<Option<BlockIdentity>, ProbeError>)
    ensures
        ({
            let said = removal_target(*record, mounts@, tree.entries@, tree.odd_names);
            match r {
                Ok(Some(node)) => said == Ok::<Option<Node>, crate::sysfs::Complaint>(
                    Some(node@),
                ),
                Ok(None) => said == Ok::<Option<Node>, crate::sysfs::Complaint>(None),
                Err(e) => said == Err::<Option<Node>, crate::sysfs::Complaint>(e@),
            }
        }),
{
    let proven = match &record.recovery {
        Some(proven) => proven,
        None => return Err(invalid("attachment has no completed recovery proof")),
    };
    let expected = logical_volume_mapping(
        record.attachment.vg_name.as_str(),
        record.attachment.lv_name.as_str(),
    );
    match single_deactivation_mapping(&proven.nodes, expected.as_str()) {
        Ok(_) => {},
        Err(e) => return Err(e),
    }
    let observed = match observe(record, mounts, tree) {
        Ok(observed) => observed,
        Err(e) => return Err(e),
    };
    if observed.mounted {
        return Err(invalid("cannot directly deactivate a mounted recovery mapping"));
    }
    let nodes = match inventory(record, tree) {
        Ok(nodes) => nodes,
        Err(e) => return Err(e),
    };
    if !are_proven(&nodes, &proven.nodes) {
        return Err(
            invalid("kernel mapping identity changed since attach; refusing direct deactivation"),
        );
    }
    match check_mounts(record, mounts, &nodes) {
        Ok(()) => {},
        Err(e) => return Err(e),
    }
    if !observed.vg_active {
        if observed.nbd_in_use {
            return Err(
                invalid("NBD still has an unverified user after mapping deactivation"),
            );
        }
        return Ok(None);
    }
    match single_deactivation_mapping(&nodes, expected.as_str()) {
        Ok(node) => Ok(Some(node)),
        Err(e) => Err(e),
    }
}

/// The arguments of the `dmsetup` query about a mapping.
pub fn dmsetup_info_arguments(name: &str) -> (r: Vec<String>)
    ensures
        crate::text::strings(r@) == seq![
            "info"@,
            "--noheadings"@,
            "--columns"@,
            "--separator"@,
            "\t"@,
            "-o"@,
            "name,uuid,major,minor,open"@,
            name@,
        ],
{
    let r = owned(
        &[
            "info",
            "--noheadings",
            "--columns",
            "--separator",
            "\t",
            "-o",
            "name,uuid,major,minor,open",
            name,
        ],
    );
    assert(crate::text::strings(r@) =~= seq![
        "info"@,
        "--noheadings"@,
        "--columns"@,
        "--separator"@,
        "\t"@,
        "-o"@,
        "name,uuid,major,minor,open"@,
        name@,
    ]);
    r
}

/// The arguments of the `dmsetup` removal of a mapping: neither forced, nor
/// deferred, nor retried.
pub fn dmsetup_remove_arguments(name: &str) -> (r: Vec<String>)
    ensures
        crate::text::strings(r@) == seq!["remove"@, name@],
{
    let r = owned(&["remove", name]);
    assert(crate::text::strings(r@) =~= seq!["remove"@, name@]);
    r
}

/// The lines among the first `n` that are not blank.
pub open spec fn written_lines(lines: Seq<Seq<char>>, n: nat) -> Seq<Seq<char>>
    decreases n,
{
    if n == 0 {
        Seq::empty()
    } else if crate::text::trimmed(lines[n - 1]).len() == 0 {
        written_lines(lines, (n - 1) as nat)
    } else {
        written_lines(lines, (n - 1) as nat).push(lines[n - 1])
    }
}

/// The report names the expected mapping, and nobody has it open.
pub open spec fn removal_fields(fields: Seq<Seq<char>>, expected: Node) -> bool {
    &&& fields.len() == 5
    &&& Some(crate::text::trimmed(fields[0])) == expected.dm_name
    &&& Some(crate::text::trimmed(fields[1])) == expected.dm_uuid
    &&& crate::text::parsed_upto(crate::text::trimmed(fields[2]), u32::MAX as nat) == Some(
        expected.device.0 as nat,
    )
    &&& crate::text::parsed_upto(crate::text::trimmed(fields[3]), u32::MAX as nat) == Some(
        expected.device.1 as nat,
    )
    &&& crate::text::trimmed(fields[4]) == "0"@
}

/// The complaint about the text of an identity report.
pub open spec fn removal_complaint(expected: Node, text: Seq<char>) -> Option<Seq<char>> {
    let all = crate::text::lines(text);
    let lines = written_lines(all, all.len());
    if lines.len() != 1 {
        Some("ambiguous device-mapper identity report"@)
    } else if !removal_fields(crate::text::split(lines[0], '\t'), expected) {
        Some("device-mapper target is open or its identity changed"@)
    } else {
        None
    }
}

/// Hold the text of an identity report to the mapping that is to be removed.
pub fn verify_removal_text(expected: &BlockIdentity, text: &str) -> (r: Result<(), ProbeError>)
    ensures
        crate::sysfs::passes(r, removal_complaint(expected@, text@)),
{
    let lines = split_lines(text);
    let ghost all = crate::text::lines(text@);
    let mut found: Vec<&str> = Vec::new();
    let mut i: usize = 0;
    assert(crate::text::texts(found@) =~= Seq::<Seq<char>>::empty());
    while i < lines.len()
        invariant
            i <= lines.len(),
            all == crate::text::texts(lines@),
            crate::text::texts(found@) == written_lines(all, i as nat),
        decreases lines.len() - i,
    {
        assert(all[i as int] == lines@[i as int]@);
        let ghost before = found@;
        if !trim(lines[i]).is_empty() {
            found.push(lines[i]);
            assert(crate::text::texts(found@) =~= crate::text::texts(before).push(
                all[i as int],
            ));
        }
        i += 1;
    }
    assert(found@.len() == crate::text::texts(found@).len());
    if found.len() != 1 {
        return Err(invalid("ambiguous device-mapper identity report"));
    }
    assert(crate::text::texts(found@)[0] == found@[0]@);
    let fields = split_text(found[0], '\t');
    let ghost parts = crate::text::split(found@[0]@, '\t');
    assert(fields@.len() == parts.len());
    if fields.len() != 5 {
        return Err(invalid("device-mapper target is open or its identity changed"));
    }
    assert(parts[0] == fields@[0]@);
    assert(parts[1] == fields@[1]@);
    assert(parts[2] == fields@[2]@);
    assert(parts[3] == fields@[3]@);
    assert(parts[4] == fields@[4]@);
    let named = match &expected.dm_name {
        Some(name) => same(trim(fields[0]), name.as_str()),
        None => false,
    };
    let known = match &expected.dm_uuid {
        Some(uuid) => same(trim(fields[1]), uuid.as_str()),
        None => false,
    };
    let major = match parse_upto(trim(fields[2]), u32::MAX as u64) {
        Some(n) => n == expected.device.0 as u64,
        None => false,
    };
    let minor = match parse_upto(trim(fields[3]), u32::MAX as u64) {
        Some(n) => n == expected.device.1 as u64,
        None => false,
    };
    if !named || !known || !major || !minor || !same(trim(fields[4]), "0") {
        return Err(invalid("device-mapper target is open or its identity changed"));
    }
    Ok(())
}

/// Hold an identity report to the mapping that is to be removed: whether the
/// query succeeded, whether it kept its error stream silent, and what it wrote.
pub fn verify_removal_info(
    expected: &BlockIdentity,
    success: bool,
    silent: bool,
    stdout: Vec<u8>,
) -> (r: Result<(), ProbeError>)
    ensures
        crate::sysfs::passes(
            r,
            if !success || !silent || stdout@.len() > crate::command::MAX_OUTPUT_BYTES {
                Some("device-mapper identity probe failed"@)
            } else if !vstd::utf8::valid_utf8(stdout@) {
                Some("invalid device-mapper identity report"@)
            } else {
                removal_complaint(expected@, vstd::utf8::decode_utf8(stdout@))
            },
        ),
{
    if !success || !silent || stdout.len() > MAX_OUTPUT_BYTES {
        return Err(invalid("device-mapper identity probe failed"));
    }
    match from_utf8(stdout) {
        Some(text) => {
            proof {
                vstd::utf8::encode_utf8_decode_utf8(text@);
            }
            verify_removal_text(expected, text.as_str())
        },
        None => Err(invalid("invalid device-mapper identity report")),
    }
}

// ---------- a complete mount ----------

/// The components of a path: the pieces between slashes that name an entry.
pub open spec fn components(pieces: Seq<Seq<char>>, n: nat) -> Seq<Seq<char>>
    decreases n,
{
    if n == 0 {
        Seq::empty()
    } else if pieces[n - 1].len() == 0 || pieces[n - 1] == "."@ {
        components(pieces, (n - 1) as nat)
    } else {
        components(pieces, (n - 1) as nat).push(pieces[n - 1])
    }
}

/// The components of a path.
pub open spec fn path_components(path: Seq<char>) -> Seq<Seq<char>> {
    let pieces = crate::text::split(path, '/');
    components(pieces, pieces.len())
}

/// An absolute path lies at or below another, by whole components.
pub open spec fn lies_below(path: Seq<char>, root: Seq<char>) -> bool {
    &&& crate::text::starts_with(path, "/"@) && crate::text::starts_with(root, "/"@)
    &&& path_components(root).len() <= path_components(path).len()
    &&& path_components(path).take(path_components(root).len() as int) == path_components(root)
}

fn split_path(path: &str) -> (r: Vec<String>)
    ensures
        crate::text::strings(r@) == path_components(path@),
{
    let pieces = split_text(path, '/');
    let ghost texts = crate::text::split(path@, '/');
    let mut out: Vec<String> = Vec::new();
    let mut i: usize = 0;
    assert(crate::text::strings(out@) =~= Seq::<Seq<char>>::empty());
    while i < pieces.len()
        invariant
            i <= pieces.len(),
            texts == crate::text::texts(pieces@),
            crate::text::strings(out@) == components(texts, i as nat),
        decreases pieces.len() - i,
    {
        assert(texts[i as int] == pieces@[i as int]@);
        let ghost before = out@;
        if !pieces[i].is_empty() && !same(pieces[i], ".") {
            out.push(pieces[i].to_owned());
            assert(crate::text::strings(out@) =~= crate::text::strings(before).push(
                texts[i as int],
            ));
        }
        i += 1;
    }
    out
}

fn is_below(path: &str, root: &str) -> (r: bool)
    ensures
        r == lies_below(path@, root@),
{
    if !has_prefix(path, "/") || !has_prefix(root, "/") {
        return false;
    }
    let a = split_path(path);
    let b = split_path(root);
    let ghost x = path_components(path@);
    let ghost y = path_components(root@);
    assert(x.len() == a@.len());
    assert(y.len() == b@.len());
    if b.len() > a.len() {
        return false;
    }
    let mut i: usize = 0;
    while i < b.len()
        invariant
            i <= b.len() <= a.len(),
            x == crate::text::strings(a@),
            y == crate::text::strings(b@),
            x == path_components(path@),
            y == path_components(root@),
            forall|k: int| 0 <= k < i ==> x[k] == y[k],
        decreases b.len() - i,
    {
        assert(x[i as int] == a@[i as int]@);
        assert(y[i as int] == b@[i as int]@);
        if !same(a[i].as_str(), b[i].as_str()) {
            assert(x.take(y.len() as int)[i as int] != y[i as int]);
            return false;
        }
        i += 1;
    }
    assert(x.take(y.len() as int) =~= y);
    true
}

/// The mount that a workload may start on.
#[derive(Debug, PartialEq, Eq)]
pub struct VerifiedMount {
    pub device: (u32, u32),
    pub mountinfo: String,
}

impl VerifiedMount {
    /// Equality of both parts.
    pub fn matches(&self, other: &VerifiedMount) -> (r: bool)
        ensures
            r == (self@ == other@),
    {
        self.device.0 == other.device.0 && self.device.1 == other.device.1 && same(
            self.mountinfo.as_str(),
            other.mountinfo.as_str(),
        )
    }
}

impl View for VerifiedMount {
    type V = ((u32, u32), Seq<char>);

    open spec fn view(&self) -> ((u32, u32), Seq<char>) {
        (self.device, self.mountinfo@)
    }
}

impl Clone for VerifiedMount {
    fn clone(&self) -> (res: Self)
        ensures
            res@ == self@,
    {
        VerifiedMount { device: self.device, mountinfo: self.mountinfo.clone() }
    }
}

/// What a line of the mount table adds: the mount at the target, which must be
/// writable. Nothing may be mounted below it.
pub open spec fn with_mount(
    line: Seq<char>,
    mountpoint: Seq<char>,
    found: Option<((u32, u32), Seq<char>)>,
) -> Result<Option<((u32, u32), Seq<char>)>, crate::sysfs::Complaint> {
    let incomplete = crate::sysfs::Complaint::Invalid("incomplete mountinfo"@);
    match crate::text::cut(line, " - "@) {
        None => Err(incomplete),
        Some((left, right)) => {
            let fields = crate::text::words(left);
            let filesystem = crate::text::words(right);
            if fields.len() < 6 || filesystem.len() < 3 {
                Err(incomplete)
            } else {
                let path = crate::probe::unescaped(fields[4]);
                if path != mountpoint {
                    if lies_below(path, mountpoint) {
                        Err(
                            crate::sysfs::Complaint::Invalid(
                                "workload volume contains a nested mount"@,
                            ),
                        )
                    } else {
                        Ok(found)
                    }
                } else if !crate::text::split(fields[5], ',').contains("rw"@)
                    || !crate::text::split(filesystem[2], ',').contains("rw"@) {
                    Err(crate::sysfs::Complaint::Invalid("workload mount is read-only"@))
                } else {
                    match crate::sysfs::number_of(fields[2]) {
                        Err(c) => Err(c),
                        Ok(device) => Ok(Some((device, line))),
                    }
                }
            }
        },
    }
}

/// What the first `n` lines say about the mount at the target.
pub open spec fn mount_upto(lines: Seq<Seq<char>>, mountpoint: Seq<char>, n: nat) -> Result<
    Option<((u32, u32), Seq<char>)>,
    crate::sysfs::Complaint,
>
    decreases n,
{
    if n == 0 {
        Ok(None)
    } else {
        match mount_upto(lines, mountpoint, (n - 1) as nat) {
            Err(c) => Err(c),
            Ok(found) => with_mount(lines[n - 1], mountpoint, found),
        }
    }
}

proof fn lemma_mount_stops(lines: Seq<Seq<char>>, mountpoint: Seq<char>, n: nat)
    requires
        n <= lines.len(),
        mount_upto(lines, mountpoint, n) is Err,
    ensures
        mount_upto(lines, mountpoint, lines.len()) == mount_upto(lines, mountpoint, n),
    decreases lines.len() - n,
{
    if n < lines.len() {
        lemma_mount_stops(lines, mountpoint, n + 1);
    }
}

/// The mount that a workload may start on: the attachment is complete, every
/// proven device is there and no other, and the mount is writable.
pub open spec fn complete_mount(
    record: BoundDeviceRecord,
    mounts: Seq<char>,
    entries: Seq<BlockEntry>,
    odd_names: bool,
) -> Result<((u32, u32), Seq<char>), crate::sysfs::Complaint> {
    match record.recovery {
        None => Err(
            crate::sysfs::Complaint::Invalid("attachment has no persisted mapping proof"@),
        ),
        Some(proven) => match recovery_observation(record, mounts, entries, odd_names) {
            Err(c) => Err(c),
            Ok(observed) => if !observed.mounted || !observed.vg_active
                || !proven.mount_permitted {
                Err(
                    crate::sysfs::Complaint::Invalid(
                        "attachment is not a complete mounted XFS volume"@,
                    ),
                )
            } else {
                match inventoried(record, entries, odd_names) {
                    Err(c) => Err(c),
                    Ok(nodes) => if nodes != nodes_view(proven.nodes@) {
                        Err(
                            crate::sysfs::Complaint::Invalid(
                                "persisted mapping proof is incomplete or changed"@,
                            ),
                        )
                    } else {
                        let lines = crate::text::lines(mounts);
                        match mount_upto(lines, record.attachment.mountpoint@, lines.len()) {
                            Err(c) => Err(c),
                            Ok(None) => Err(
                                crate::sysfs::Complaint::Invalid("workload mount is missing"@),
                            ),
                            Ok(Some(mount)) => Ok(mount),
                        }
                    },
                }
            },
        },
    }
}

fn has_option(options: &str, wanted: &str) -> (r: bool)
    ensures
        r == crate::text::split(options@, ',').contains(wanted@),
{
    let list = split_text(options, ',');
    let ghost texts = crate::text::split(options@, ',');
    let mut i: usize = 0;
    while i < list.len()
        invariant
            i <= list.len(),
            texts == crate::text::texts(list@),
            texts == crate::text::split(options@, ','),
            forall|k: int| 0 <= k < i ==> texts[k] != wanted@,
        decreases list.len() - i,
    {
        assert(texts[i as int] == list@[i as int]@);
        if same(list[i], wanted) {
            return true;
        }
        i += 1;
    }
    false
}

fn read_mount(line: &str, mountpoint: &str, found: Option<VerifiedMount>) -> (r: Result<
    Option<VerifiedMount>,
    ProbeError,
>)
    ensures
        ({
            let said = with_mount(
                line@,
                mountpoint@,
                match found {
                    Some(m) => Some(m@),
                    None => None,
                },
            );
            match r {
                Ok(Some(m)) => said == Ok::<
                    Option<((u32, u32), Seq<char>)>,
                    crate::sysfs::Complaint,
                >(Some(m@)),
                Ok(None) => said == Ok::<
                    Option<((u32, u32), Seq<char>)>,
                    crate::sysfs::Complaint,
                >(None),
                Err(e) => said == Err::<
                    Option<((u32, u32), Seq<char>)>,
                    crate::sysfs::Complaint,
                >(e@),
            }
        }),
{
    let (left, right) = match split_once(line, " - ") {
        Some(p) => p,
        None => return Err(invalid("incomplete mountinfo")),
    };
    assert(crate::text::cut(line@, " - "@) == Some((left@, right@)));
    let fields = split_words(left);
    let filesystem = split_words(right);
    assert(crate::text::words(left@).len() == fields@.len());
    assert(crate::text::words(right@).len() == filesystem@.len());
    if fields.len() < 6 || filesystem.len() < 3 {
        return Err(invalid("incomplete mountinfo"));
    }
    assert(crate::text::words(left@)[2] == fields@[2]@);
    assert(crate::text::words(left@)[4] == fields@[4]@);
    assert(crate::text::words(left@)[5] == fields@[5]@);
    assert(crate::text::words(right@)[2] == filesystem@[2]@);
    let path = unescape(fields[4]);
    if !same(path.as_str(), mountpoint) {
        if is_below(path.as_str(), mountpoint) {
            return Err(invalid("workload volume contains a nested mount"));
        }
        return Ok(found);
    }
    if !has_option(fields[5], "rw") || !has_option(filesystem[2], "rw") {
        return Err(invalid("workload mount is read-only"));
    }
    match device_number(fields[2]) {
        Ok(device) => Ok(Some(VerifiedMount { device, mountinfo: line.to_owned() })),
        Err(e) => Err(e),
    }
}

fn same_nodes(a: &Vec<BlockIdentity>, b: &Vec<BlockIdentity>) -> (r: bool)
    ensures
        r == (nodes_view(a@) == nodes_view(b@)),
{
    if a.len() != b.len() {
        assert(nodes_view(a@).len() != nodes_view(b@).len());
        return false;
    }
    let mut i: usize = 0;
    while i < a.len()
        invariant
            i <= a.len(),
            a.len() == b.len(),
            forall|k: int| 0 <= k < i ==> (#[trigger] a@[k])@ == b@[k]@,
        decreases a.len() - i,
    {
        if !a[i].matches(&b[i]) {
            assert(nodes_view(a@)[i as int] != nodes_view(b@)[i as int]);
            return false;
        }
        i += 1;
    }
    assert(nodes_view(a@) =~= nodes_view(b@));
    true
}

/// The mount that a workload may start on. A cleanup tolerates devices that are
/// gone; this requires every one of them.
pub fn observe_complete(record: &BoundDeviceRecord, mounts: &str, tree: &BlockTree) -> (r: Result<
    VerifiedMount,
    ProbeError,
>)
    ensures
        ({
            let said = complete_mount(*record, mounts@, tree.entries@, tree.odd_names);
            match r {
                Ok(m) => said == Ok::<((u32, u32), Seq<char>), crate::sysfs::Complaint>(m@),
                Err(e) => said == Err::<((u32, u32), Seq<char>), crate::sysfs::Complaint>(e@),
            }
        }),
{
    let proven = match &record.recovery {
        Some(proven) => proven,
        None => return Err(invalid("attachment has no persisted mapping proof")),
    };
    let observed = match observe(record, mounts, tree) {
        Ok(observed) => observed,
        Err(e) => return Err(e),
    };
    if !observed.mounted || !observed.vg_active || !proven.mount_permitted {
        return Err(invalid("attachment is not a complete mounted XFS volume"));
    }
    let nodes = match inventory(record, tree) {
        Ok(nodes) => nodes,
        Err(e) => return Err(e),
    };
    if !same_nodes(&nodes, &proven.nodes) {
        return Err(invalid("persisted mapping proof is incomplete or changed"));
    }
    find_mount(mounts, record.attachment.mountpoint.as_str())
}

fn find_mount(mounts: &str, mountpoint: &str) -> (r: Result<VerifiedMount, ProbeError>)
    ensures
        ({
            let lines = crate::text::lines(mounts@);
            let said = mount_upto(lines, mountpoint@, lines.len());
            match r {
                Ok(m) => said == Ok::<
                    Option<((u32, u32), Seq<char>)>,
                    crate::sysfs::Complaint,
                >(Some(m@)),
                Err(e) => said == Err::<
                    Option<((u32, u32), Seq<char>)>,
                    crate::sysfs::Complaint,
                >(e@) || (said == Ok::<
                    Option<((u32, u32), Seq<char>)>,
                    crate::sysfs::Complaint,
                >(None) && e@ == crate::sysfs::Complaint::Invalid("workload mount is missing"@)),
            }
        }),
{
    let lines = split_lines(mounts);
    let ghost texts = crate::text::lines(mounts@);
    let mut found: Option<VerifiedMount> = None;
    let mut i: usize = 0;
    while i < lines.len()
        invariant
            i <= lines.len(),
            texts == crate::text::texts(lines@),
            texts == crate::text::lines(mounts@),
            mount_upto(texts, mountpoint@, i as nat) == Ok::<
                Option<((u32, u32), Seq<char>)>,
                crate::sysfs::Complaint,
            >(
                match found {
                    Some(m) => Some(m@),
                    None => None,
                },
            ),
        decreases lines.len() - i,
    {
        assert(texts[i as int] == lines@[i as int]@);
        match read_mount(lines[i], mountpoint, found) {
            Ok(next) => {
                found = next;
            },
            Err(e) => {
                proof {
                    lemma_mount_stops(texts, mountpoint@, (i + 1) as nat);
                }
                return Err(e);
            },
        }
        i += 1;
    }
    match found {
        Some(m) => Ok(m),
        None => Err(invalid("workload mount is missing")),
    }
}

// ---------- lines and paths ----------

/// A line of the mount table endangers a recovery exactly when it mounts one of
/// the recorded devices somewhere else, however many optional fields it holds.
pub proof fn mount_lines_are_harmless_but_for_stray_mounts(
    front: Seq<Seq<char>>,
    back: Seq<Seq<char>>,
    mountpoint: Seq<char>,
    nodes: Seq<Node>,
    device: (u32, u32),
)
    requires
        crate::probe::mount_fields(front, back),
        front.len() >= 6,
        front[2] == crate::text::decimal(device.0 as nat) + ":"@ + crate::text::decimal(
            device.1 as nat,
        ),
    ensures
        line_harmless(crate::probe::mount_line(front, back), mountpoint, nodes) is Ok <==> (
        exists|i: int| 0 <= i < nodes.len() && (#[trigger] nodes[i]).device == device)
            ==> crate::probe::unescaped(front[4]) == mountpoint,
{
    crate::probe::mount_lines_come_apart(front, back);
    crate::sysfs::device_numbers_read_back(device.0, device.1);
}

/// A workload may start on a mount at the target that is writable in both its
/// own and its filesystem's options; a mount below it bars the start, and any
/// other one does not matter.
pub proof fn workload_mounts_are_judged_by_their_fields(
    front: Seq<Seq<char>>,
    back: Seq<Seq<char>>,
    options: Seq<Seq<char>>,
    inner: Seq<Seq<char>>,
    mountpoint: Seq<char>,
    found: Option<((u32, u32), Seq<char>)>,
    device: (u32, u32),
)
    requires
        crate::probe::mount_fields(front, back),
        front.len() >= 6,
        back.len() >= 3,
        options.len() > 0,
        inner.len() > 0,
        forall|i: int| 0 <= i < options.len() ==> !(#[trigger] options[i]).contains(','),
        forall|i: int| 0 <= i < inner.len() ==> !(#[trigger] inner[i]).contains(','),
        front[5] == crate::text::listed(options, ','),
        back[2] == crate::text::listed(inner, ','),
        front[2] == crate::text::decimal(device.0 as nat) + ":"@ + crate::text::decimal(
            device.1 as nat,
        ),
    ensures
        ({
            let line = crate::probe::mount_line(front, back);
            let said = with_mount(line, mountpoint, found);
            let path = crate::probe::unescaped(front[4]);
            if path == mountpoint {
                if options.contains("rw"@) && inner.contains("rw"@) {
                    said == Ok::<
                        Option<((u32, u32), Seq<char>)>,
                        crate::sysfs::Complaint,
                    >(Some((device, line)))
                } else {
                    said is Err
                }
            } else if lies_below(path, mountpoint) {
                said is Err
            } else {
                said == Ok::<Option<((u32, u32), Seq<char>)>, crate::sysfs::Complaint>(found)
            }
        }),
{
    crate::probe::mount_lines_come_apart(front, back);
    crate::sysfs::device_numbers_read_back(device.0, device.1);
    crate::text::lists_are_split_into_their_items(options, ',');
    crate::text::lists_are_split_into_their_items(inner, ',');
}

/// A component of a path.
pub open spec fn path_name(name: Seq<char>) -> bool {
    name.len() > 0 && name != "."@ && !name.contains('/')
}

/// An absolute path of the given components.
pub open spec fn absolute(names: Seq<Seq<char>>) -> Seq<char> {
    "/"@ + crate::text::listed(names, '/')
}

proof fn lemma_all_components(pieces: Seq<Seq<char>>, n: nat)
    requires
        n <= pieces.len(),
        forall|i: int| 0 < i < pieces.len() ==> path_name(#[trigger] pieces[i]),
        pieces.len() > 0,
        pieces[0].len() == 0,
    ensures
        components(pieces, n) == if n == 0 {
            Seq::<Seq<char>>::empty()
        } else {
            pieces.subrange(1, n as int)
        },
    decreases n,
{
    if n > 0 {
        lemma_all_components(pieces, (n - 1) as nat);
        if n > 1 {
            assert(path_name(pieces[n - 1]));
            assert(pieces.subrange(1, n - 1).push(pieces[n - 1]) =~= pieces.subrange(1, n as int));
        } else {
            assert(components(pieces, 1) =~= pieces.subrange(1, 1));
        }
    }
}

/// A path has the components that it was made of.
pub proof fn paths_have_their_components(names: Seq<Seq<char>>)
    requires
        names.len() > 0,
        forall|i: int| 0 <= i < names.len() ==> path_name(#[trigger] names[i]),
    ensures
        path_components(absolute(names)) == names,
        crate::text::starts_with(absolute(names), "/"@),
{
    reveal_strlit("/");
    let pieces = seq![Seq::<char>::empty()] + names;
    assert(pieces.drop_first() =~= names);
    assert("/"@ =~= seq!['/']);
    assert(crate::text::listed(pieces, '/') =~= absolute(names)) by {
        assert(pieces[0] + seq!['/'] =~= "/"@);
    }
    assert forall|i: int| 0 <= i < pieces.len() implies !(#[trigger] pieces[i]).contains('/') by {
        if i > 0 {
            assert(pieces[i] == names[i - 1]);
            assert(path_name(names[i - 1]));
        }
    }
    crate::text::lists_are_split_into_their_items(pieces, '/');
    assert forall|i: int| 0 < i < pieces.len() implies path_name(#[trigger] pieces[i]) by {
        assert(pieces[i] == names[i - 1]);
    }
    lemma_all_components(pieces, pieces.len());
    assert(pieces.subrange(1, pieces.len() as int) =~= names);
    crate::text::prefixes_come_off("/"@, crate::text::listed(names, '/'));
}

/// A path lies below another exactly when it begins with all its components: a
/// sibling whose name merely begins alike does not.
pub proof fn paths_lie_below_by_whole_components(path: Seq<Seq<char>>, root: Seq<Seq<char>>)
    requires
        path.len() > 0,
        root.len() > 0,
        forall|i: int| 0 <= i < path.len() ==> path_name(#[trigger] path[i]),
        forall|i: int| 0 <= i < root.len() ==> path_name(#[trigger] root[i]),
    ensures
        lies_below(absolute(path), absolute(root)) <==> root.len() <= path.len() && forall|i: int|
            0 <= i < root.len() ==> #[trigger] path[i] == root[i],
{
    paths_have_their_components(path);
    paths_have_their_components(root);
    if root.len() <= path.len() {
        let front = path.take(root.len() as int);
        if forall|i: int| 0 <= i < root.len() ==> #[trigger] path[i] == root[i] {
            assert(front =~= root);
        }
        if front == root {
            assert forall|i: int| 0 <= i < root.len() implies #[trigger] path[i] == root[i] by {
                assert(front[i] == path[i]);
            }
        }
    }
}

// ---------- the inventory is complete ----------

proof fn lemma_nodes_hold_parts(
    entries: Seq<BlockEntry>,
    nbd: Seq<char>,
    vg: Seq<char>,
    n: nat,
    k: int,
)
    requires
        n <= entries.len(),
        nodes_upto(entries, nbd, vg, n) is Ok,
        0 <= k < n,
        part_of(entries, entries[k], nbd, vg)->Ok_0 is Some,
    ensures
        node_named(nodes_upto(entries, nbd, vg, n)->Ok_0, entries[k].name@),
    decreases n,
{
    let m = (n - 1) as nat;
    let before = nodes_upto(entries, nbd, vg, m)->Ok_0;
    let nodes = nodes_upto(entries, nbd, vg, n)->Ok_0;
    if k < m {
        lemma_nodes_hold_parts(entries, nbd, vg, m, k);
        let i = choose|i: int|
            0 <= i < before.len() && (#[trigger] before[i]).name == entries[k].name@;
        assert(nodes[i].name == entries[k].name@);
    } else {
        assert(nodes[nodes.len() - 1].name == entries[k].name@);
    }
}

/// No part of an attachment escapes the inventory: the NBD device, each of its
/// partitions and each mapping of the group is among what it finds.
pub proof fn inventories_hold_every_part(
    entries: Seq<BlockEntry>,
    nbd: Seq<char>,
    vg: Seq<char>,
    k: int,
)
    requires
        0 <= k < entries.len(),
        nodes_upto(entries, nbd, vg, entries.len()) is Ok,
        crate::detach::on_device(entries, entries[k].name@, nbd) == Ok::<
            bool,
            crate::sysfs::Complaint,
        >(true) || crate::detach::group_mapping(entries[k], vg),
    ensures
        node_named(nodes_upto(entries, nbd, vg, entries.len())->Ok_0, entries[k].name@),
{
    if nodes_upto(entries, nbd, vg, (k + 1) as nat) is Err {
        lemma_nodes_stop(entries, nbd, vg, (k + 1) as nat);
    }
    assert(part_of(entries, entries[k], nbd, vg) is Ok);
    lemma_nodes_hold_parts(entries, nbd, vg, entries.len(), k);
}

/// A mapping of the group is taken into the inventory with its name, its LVM
/// identifier and what it is built on; the NBD device and its partitions with
/// none of these.
pub proof fn parts_are_recorded_as_they_are_shown(
    entries: Seq<BlockEntry>,
    entry: BlockEntry,
    nbd: Seq<char>,
    vg: Seq<char>,
    slaves: Vec<String>,
)
    requires
        entry.slaves == Some(slaves),
        slaves@.len() <= MAX_NODES,
    ensures
        crate::detach::on_device(entries, entry.name@, nbd) == Ok::<bool, crate::sysfs::Complaint>(
            true,
        ) ==> part_of(entries, entry, nbd, vg)->Ok_0 == Some(
            (None::<Seq<char>>, None::<Seq<char>>, Seq::<Seq<char>>::empty()),
        ),
        crate::detach::on_device(entries, entry.name@, nbd) == Ok::<bool, crate::sysfs::Complaint>(
            false,
        ) && crate::detach::group_mapping(entry, vg) && (entry.dm_uuid matches Some(id)
            && crate::text::starts_with(crate::text::trimmed(id@), "LVM-"@)) ==> part_of(
            entries,
            entry,
            nbd,
            vg,
        )->Ok_0 == Some(
            (
                Some(crate::text::trimmed(entry.dm_name->Some_0@)),
                Some(crate::text::trimmed(entry.dm_uuid->Some_0@)),
                crate::text::sorted(crate::text::strings(slaves@)),
            ),
        ),
{
}

/// Sorting an inventory loses nothing and adds nothing.
pub proof fn sorting_keeps_every_node(v: Seq<Node>)
    ensures
        nodes_sorted(v).to_multiset() == v.to_multiset(),
        nodes_sorted(v).len() == v.len(),
    decreases v.len(),
{
    if v.len() > 0 {
        sorting_keeps_every_node(v.drop_last());
        lemma_placing_adds_one(nodes_sorted(v.drop_last()), v.last());
        v.drop_last().to_multiset_ensures();
        assert(v =~= v.drop_last().push(v.last()));
        assert(v.to_multiset() =~= v.drop_last().to_multiset().insert(v.last()));
    } else {
        assert(v =~= Seq::<Node>::empty());
    }
}

proof fn lemma_placing_adds_one(v: Seq<Node>, node: Node)
    ensures
        node_placed(v, node).to_multiset() == v.to_multiset().insert(node),
        node_placed(v, node).len() == v.len() + 1,
    decreases v.len(),
{
    v.to_multiset_ensures();
    if v.len() > 0 && crate::text::less(node.name, v.last().name) {
        let front = v.drop_last();
        lemma_placing_adds_one(front, node);
        front.to_multiset_ensures();
        node_placed(front, node).to_multiset_ensures();
        assert(v =~= front.push(v.last()));
        assert(v.to_multiset() =~= front.to_multiset().insert(v.last()));
        assert(node_placed(v, node).to_multiset() =~= v.to_multiset().insert(node));
    }
}

/// What is live of a dead attachment is believed only as far as it was recorded:
/// with a proof, only devices of the proof and only a mount that it permits;
/// without proof and intent, only that nothing is live.
pub proof fn recoveries_believe_what_was_recorded(
    record: BoundDeviceRecord,
    mounts: Seq<char>,
    entries: Seq<BlockEntry>,
    odd_names: bool,
    observed: DetachObservation,
    nodes: Seq<Node>,
)
    requires
        crate::detach::observation(record, mounts, entries, None, false, false) == Ok::<
            DetachObservation,
            crate::sysfs::Complaint,
        >(observed),
        inventoried(record, entries, odd_names) == Ok::<Seq<Node>, crate::sysfs::Complaint>(nodes),
        mounts_harmless(record, mounts, nodes) is Ok,
    ensures
        record.recovery matches Some(proven) ==> (recovery_observation(
            record,
            mounts,
            entries,
            odd_names,
        ) == Ok::<DetachObservation, crate::sysfs::Complaint>(observed) <==> {
            &&& forall|i: int|
                0 <= i < nodes.len() ==> nodes_view(proven.nodes@).contains(#[trigger] nodes[i])
            &&& observed.mounted ==> proven.mount_permitted
        }),
        record.recovery is None && record.recovery_intent is None ==> (recovery_observation(
            record,
            mounts,
            entries,
            odd_names,
        ) is Ok <==> !observed.mounted && !observed.vg_active && !observed.nbd_in_use),
        record.recovery is None && record.recovery_intent is Some && observed.mounted
            ==> recovery_observation(record, mounts, entries, odd_names) is Err,
{
}

/// The proof of an attachment is its whole inventory, taken exactly when the
/// group is active with the logical volume in it, and nothing is mounted.
pub proof fn proofs_hold_the_whole_inventory(
    record: BoundDeviceRecord,
    mounts: Seq<char>,
    entries: Seq<BlockEntry>,
    odd_names: bool,
    observed: DetachObservation,
    nodes: Seq<Node>,
)
    requires
        crate::detach::observation(record, mounts, entries, None, false, false) == Ok::<
            DetachObservation,
            crate::sysfs::Complaint,
        >(observed),
        inventoried(record, entries, odd_names) == Ok::<Seq<Node>, crate::sysfs::Complaint>(nodes),
        mounts_harmless(record, mounts, nodes) is Ok,
    ensures
        captured(record, mounts, entries, odd_names) == Ok::<Seq<Node>, crate::sysfs::Complaint>(
            nodes,
        ) <==> {
            &&& !observed.mounted
            &&& observed.vg_active
            &&& exists|i: int|
                0 <= i < nodes.len() && (#[trigger] nodes[i]).dm_name == Some(
                    crate::detach::mapping_name(
                        record.attachment.vg_name@,
                        record.attachment.lv_name@,
                    ),
                )
        },
{
}

/// A direct removal goes for the one mapping of the proof, as long as it is
/// there, alone and not mounted, and for none once it is gone.
pub proof fn removals_go_for_the_one_mapping(nodes: Seq<Node>, expected: Seq<char>, k: int)
    requires
        0 <= k < nodes.len(),
        nodes[k].dm_name == Some(expected),
        nodes[k].dm_uuid is Some,
        nodes[k].slaves.len() > 0,
        forall|i: int| 0 <= i < nodes.len() && i != k ==> (#[trigger] nodes[i]).dm_name is None,
        forall|i: int|
            0 <= i < nodes.len() ==> !(#[trigger] nodes[i]).slaves.contains(nodes[k].name),
    ensures
        single_mapping(nodes, expected) == Ok::<Node, crate::sysfs::Complaint>(nodes[k]),
{
    lemma_first_mapping(nodes, 0, k);
    lemma_no_mapping(nodes, k + 1, k);
}

proof fn lemma_first_mapping(nodes: Seq<Node>, i: int, k: int)
    requires
        0 <= i <= k < nodes.len(),
        nodes[k].dm_name is Some,
        forall|j: int| 0 <= j < nodes.len() && j != k ==> (#[trigger] nodes[j]).dm_name is None,
    ensures
        mapping_from(nodes, i) == Some(k),
    decreases k - i,
{
    if i < k {
        lemma_first_mapping(nodes, i + 1, k);
    }
}

proof fn lemma_no_mapping(nodes: Seq<Node>, i: int, k: int)
    requires
        k < i,
        0 <= k < nodes.len(),
        forall|j: int| 0 <= j < nodes.len() && j != k ==> (#[trigger] nodes[j]).dm_name is None,
    ensures
        mapping_from(nodes, i) is None,
    decreases nodes.len() - i,
{
    if i < nodes.len() {
        lemma_no_mapping(nodes, i + 1, k);
    }
}

/// The identity report of the mapping that is to be removed is accepted exactly
/// when it names the mapping, its identifier and its number, and nobody has it
/// open.
pub proof fn removal_reports_name_the_mapping(
    expected: Node,
    name: Seq<char>,
    uuid: Seq<char>,
    number: (u32, u32),
    open: nat,
)
    requires
        crate::text::plain_word(name),
        crate::text::plain_word(uuid),
    ensures
        ({
            let fields = seq![
                name,
                uuid,
                crate::text::decimal(number.0 as nat),
                crate::text::decimal(number.1 as nat),
                crate::text::decimal(open),
            ];
            removal_complaint(
                expected,
                crate::text::fed(seq![crate::text::listed(fields, '\t')]),
            ) is None <==> {
                &&& expected.dm_name == Some(name)
                &&& expected.dm_uuid == Some(uuid)
                &&& expected.device == number
                &&& open == 0
            }
        }),
{
    let a = crate::text::decimal(number.0 as nat);
    let b = crate::text::decimal(number.1 as nat);
    let c = crate::text::decimal(open);
    let fields = seq![name, uuid, a, b, c];
    let line = crate::text::listed(fields, '\t');
    crate::text::numerals_are_read_up_to_a_limit(number.0 as nat, u32::MAX as nat);
    crate::text::numerals_are_read_up_to_a_limit(number.1 as nat, u32::MAX as nat);
    crate::text::numerals_are_read_up_to_a_limit(open, open);
    crate::text::line_feeds_are_trimmed(name);
    crate::text::line_feeds_are_trimmed(uuid);
    crate::text::line_feeds_are_trimmed(a);
    crate::text::line_feeds_are_trimmed(b);
    crate::text::line_feeds_are_trimmed(c);
    crate::text::characters_are_classed_by_range('\t');
    crate::text::characters_are_classed_by_range('\n');
    crate::text::characters_are_classed_by_range('\r');
    assert forall|i: int| 0 <= i < fields.len() implies crate::text::plain_word(
        #[trigger] fields[i],
    ) by {}
    assert forall|i: int| 0 <= i < fields.len() implies !(#[trigger] fields[i]).contains('\t') by {
        assert(crate::text::plain_word(fields[i]));
        if fields[i].contains('\t') {
            let k = fields[i].index_of('\t');
            assert(crate::text::is_white(fields[i][k]));
        }
    }
    crate::text::lists_are_split_into_their_items(fields, '\t');
    lemma_tabbed_line(fields);
    let lines = seq![line];
    crate::text::fed_lines_read_back(lines);
    assert(crate::text::trimmed(line).len() > 0) by {
        assert(line[0] == name[0]);
        assert(crate::text::skip_white_from(line, 0) == 0);
        lemma_front_stays(line, line.len() as int);
    }
    reveal_with_fuel(written_lines, 2);
    assert(written_lines(lines, 1) =~= lines);
    reveal_strlit("0");
    assert(crate::text::decimal(0) =~= "0"@);
    if open != 0 && c == "0"@ {
        crate::text::numerals_tell_their_number(open, 0);
    }
}

proof fn lemma_front_stays(s: Seq<char>, end: int)
    requires
        0 < end <= s.len(),
        !crate::text::is_white(s[0]),
    ensures
        0 < crate::text::trim_end_at(s, end) <= end,
    decreases end,
{
    if crate::text::is_white(s[end - 1]) {
        lemma_front_stays(s, end - 1);
    }
}

proof fn lemma_tabbed_line(fields: Seq<Seq<char>>)
    requires
        fields.len() > 0,
        forall|i: int| 0 <= i < fields.len() ==> crate::text::plain_word(#[trigger] fields[i]),
    ensures
        ({
            let line = crate::text::listed(fields, '\t');
            &&& line.len() > 0
            &&& !line.contains('\n')
            &&& line.last() != '\r'
        }),
    decreases fields.len(),
{
    let line = crate::text::listed(fields, '\t');
    let w = fields[0];
    crate::text::characters_are_classed_by_range('\n');
    crate::text::characters_are_classed_by_range('\r');
    assert(crate::text::plain_word(w));
    if fields.len() == 1 {
        if w.contains('\n') {
            let k = w.index_of('\n');
            assert(crate::text::is_white(w[k]));
        }
        assert(!crate::text::is_white(w[w.len() - 1]));
    } else {
        let rest = fields.drop_first();
        assert forall|i: int| 0 <= i < rest.len() implies crate::text::plain_word(
            #[trigger] rest[i],
        ) by {
            assert(rest[i] == fields[i + 1]);
        }
        lemma_tabbed_line(rest);
        let tail = crate::text::listed(rest, '\t');
        assert(line.last() == tail.last());
        if line.contains('\n') {
            let k = line.index_of('\n');
            if k < w.len() {
                assert(line[k] == w[k]);
                assert(crate::text::is_white(w[k]));
            } else if k > w.len() {
                assert(tail[k - w.len() - 1] == '\n');
            }
        }
    }
}

// ---------- the topology and what may be done with it ----------

/// A device of the attachment fits into its surroundings: each of its holders is
/// a device of the attachment that is built on it, and each device that it is
/// built on is one of the attachment that it holds.
pub open spec fn fits_in(entries: Seq<BlockEntry>, nodes: Seq<Node>, node: Node) -> bool {
    &&& holders_of(entries, node.name) matches Ok(holders) && forall|k: int|
        0 <= k < holders.len() ==> node_on(nodes, #[trigger] holders[k], node.name)
    &&& forall|k: int|
        0 <= k < node.slaves.len() ==> node_named(nodes, #[trigger] node.slaves[k]) && (holders_of(
            entries,
            node.slaves[k],
        ) matches Ok(holders) && holders.contains(node.name))
}

proof fn lemma_slaves_known(
    entries: Seq<BlockEntry>,
    nodes: Seq<Node>,
    name: Seq<char>,
    slaves: Seq<Seq<char>>,
    i: int,
)
    requires
        0 <= i <= slaves.len(),
    ensures
        slaves_known(entries, nodes, name, slaves, i) is Ok <==> forall|k: int|
            i <= k < slaves.len() ==> node_named(nodes, #[trigger] slaves[k]) && (holders_of(
                entries,
                slaves[k],
            ) matches Ok(holders) && holders.contains(name)),
    decreases slaves.len() - i,
{
    if i < slaves.len() {
        lemma_slaves_known(entries, nodes, name, slaves, i + 1);
        let good = node_named(nodes, slaves[i]) && (holders_of(entries, slaves[i]) matches Ok(
            holders,
        ) && holders.contains(name));
        if slaves_known(entries, nodes, name, slaves, i) is Ok {
            assert(good);
        } else if good {
            let k = choose|k: int|
                i + 1 <= k < slaves.len() && !(node_named(nodes, #[trigger] slaves[k]) && (
                holders_of(entries, slaves[k]) matches Ok(holders) && holders.contains(name)));
            assert(i <= k < slaves.len());
        }
    }
}

/// An inventory is complete exactly when every one of its devices fits in: no
/// holder and no backing device is a stranger, and both sides agree.
pub proof fn inventories_have_no_loose_ends(entries: Seq<BlockEntry>, nodes: Seq<Node>, i: int)
    requires
        0 <= i <= nodes.len(),
    ensures
        nodes_closed(entries, nodes, i) is Ok <==> forall|k: int|
            i <= k < nodes.len() ==> fits_in(entries, nodes, #[trigger] nodes[k]),
    decreases nodes.len() - i,
{
    if i < nodes.len() {
        inventories_have_no_loose_ends(entries, nodes, i + 1);
        let node = nodes[i];
        lemma_slaves_known(entries, nodes, node.name, node.slaves, 0);
        if nodes_closed(entries, nodes, i) is Ok {
            assert(fits_in(entries, nodes, node));
        } else if fits_in(entries, nodes, node) {
            let k = choose|k: int|
                i + 1 <= k < nodes.len() && !fits_in(entries, nodes, #[trigger] nodes[k]);
            assert(i <= k < nodes.len());
        }
    }
}

/// An inventory is in the order of its names.
pub proof fn inventories_are_in_order(v: Seq<Node>, i: int)
    requires
        0 <= i < v.len() - 1,
    ensures
        !crate::text::less(nodes_sorted(v)[i + 1].name, nodes_sorted(v)[i].name),
{
    sorting_keeps_every_node(v);
    lemma_nodes_in_order(v, i);
}

proof fn lemma_nodes_in_order(v: Seq<Node>, i: int)
    requires
        0 <= i < nodes_sorted(v).len() - 1,
    ensures
        !crate::text::less(nodes_sorted(v)[i + 1].name, nodes_sorted(v)[i].name),
    decreases v.len(),
{
    let front = nodes_sorted(v.drop_last());
    assert forall|j: int| 0 <= j < front.len() - 1 implies !crate::text::less(
        (#[trigger] front[j + 1]).name,
        front[j].name,
    ) by {
        lemma_nodes_in_order(v.drop_last(), j);
    }
    lemma_node_placed_in_order(front, v.last(), i);
}

proof fn lemma_node_placed_in_order(v: Seq<Node>, node: Node, i: int)
    requires
        forall|j: int|
            0 <= j < v.len() - 1 ==> !crate::text::less((#[trigger] v[j + 1]).name, v[j].name),
        0 <= i < node_placed(v, node).len() - 1,
    ensures
        !crate::text::less(node_placed(v, node)[i + 1].name, node_placed(v, node)[i].name),
        v.len() > 0 && crate::text::less(node.name, v.last().name) ==> node_placed(v, node).last()
            == v.last(),
    decreases v.len(),
{
    if v.len() > 0 && crate::text::less(node.name, v.last().name) {
        let front = v.drop_last();
        let inner = node_placed(front, node);
        assert forall|j: int| 0 <= j < front.len() - 1 implies !crate::text::less(
            (#[trigger] front[j + 1]).name,
            front[j].name,
        ) by {
            assert(!crate::text::less(v[j + 1].name, v[j].name));
        }
        if i < inner.len() - 1 {
            lemma_node_placed_in_order(front, node, i);
        } else {
            if front.len() > 0 && crate::text::less(node.name, front.last().name) {
                assert(inner.last() == front.last());
                assert(!crate::text::less(v[front.len() - 1 + 1].name, v[front.len() - 1].name));
            } else {
                assert(inner.last() == node);
                crate::text::dictionary_order_is_total(node.name, v.last().name, node.name);
            }
        }
    } else if i < v.len() - 1 {
        assert(!crate::text::less(v[i + 1].name, v[i].name));
    }
}

/// An attachment that was only intended is believed where nothing is mounted,
/// its devices are the verified ones, and either its group is active with
/// verified mappings alone or nothing uses its device.
pub proof fn intents_are_believed_by_what_was_verified(
    record: BoundDeviceRecord,
    verified: crate::lvm_preflight::Verified,
    mounts: Seq<char>,
    entries: Seq<BlockEntry>,
    odd_names: bool,
    observed: DetachObservation,
    nodes: Seq<Node>,
)
    requires
        inventoried(record, entries, odd_names) == Ok::<Seq<Node>, crate::sysfs::Complaint>(nodes),
        mounts_harmless(record, mounts, nodes) is Ok,
    ensures
        intent_observation(record, verified, mounts, entries, odd_names, observed) == Ok::<
            DetachObservation,
            crate::sysfs::Complaint,
        >(observed) <==> {
            &&& !observed.mounted
            &&& crate::lvm_preflight::devices_verified(record.device@, verified, entries, odd_names)
                is Ok
            &&& observed.vg_active ==> crate::lvm_preflight::mappings_verified(
                record,
                verified,
                entries,
                false,
            ) is Ok
            &&& !observed.vg_active ==> !observed.nbd_in_use
        },
{
}

/// A direct removal goes for the mapping that is there, as long as the group is
/// active; without the group it has nothing to do, unless something else still
/// uses the device; and it never goes for what is mounted or was not proven.
pub proof fn removals_follow_what_is_live(
    record: BoundDeviceRecord,
    mounts: Seq<char>,
    entries: Seq<BlockEntry>,
    odd_names: bool,
    proven: RecoveryProof,
    observed: DetachObservation,
    nodes: Seq<Node>,
)
    requires
        record.recovery == Some(proven),
        recovery_observation(record, mounts, entries, odd_names) == Ok::<
            DetachObservation,
            crate::sysfs::Complaint,
        >(observed),
        inventoried(record, entries, odd_names) == Ok::<Seq<Node>, crate::sysfs::Complaint>(nodes),
    ensures
        ({
            let expected = crate::detach::mapping_name(
                record.attachment.vg_name@,
                record.attachment.lv_name@,
            );
            let target = removal_target(record, mounts, entries, odd_names);
            let known = single_mapping(nodes_view(proven.nodes@), expected);
            &&& observed.mounted ==> target is Err
            &&& known is Err ==> target is Err
            &&& known is Ok && !observed.mounted && !observed.vg_active && !observed.nbd_in_use
                ==> target == Ok::<Option<Node>, crate::sysfs::Complaint>(None)
            &&& !observed.vg_active && observed.nbd_in_use ==> target is Err
            &&& known is Ok && !observed.mounted && observed.vg_active ==> match single_mapping(
                nodes,
                expected,
            ) {
                Ok(node) => target == Ok::<Option<Node>, crate::sysfs::Complaint>(Some(node)),
                Err(_) => target is Err,
            }
        }),
{
}

/// Nothing is removed directly without a completed proof.
pub proof fn removals_need_a_proof(
    record: BoundDeviceRecord,
    mounts: Seq<char>,
    entries: Seq<BlockEntry>,
    odd_names: bool,
)
    requires
        record.recovery is None,
    ensures
        removal_target(record, mounts, entries, odd_names) is Err,
        complete_mount(record, mounts, entries, odd_names) is Err,
{
}

/// A workload may start exactly on a mounted attachment whose group is active,
/// whose proof permits the mount and holds the very devices that are there.
pub proof fn workloads_start_on_complete_attachments(
    record: BoundDeviceRecord,
    mounts: Seq<char>,
    entries: Seq<BlockEntry>,
    odd_names: bool,
    proven: RecoveryProof,
    observed: DetachObservation,
    nodes: Seq<Node>,
    mount: ((u32, u32), Seq<char>),
)
    requires
        record.recovery == Some(proven),
        recovery_observation(record, mounts, entries, odd_names) == Ok::<
            DetachObservation,
            crate::sysfs::Complaint,
        >(observed),
        inventoried(record, entries, odd_names) == Ok::<Seq<Node>, crate::sysfs::Complaint>(nodes),
        mount_upto(
            crate::text::lines(mounts),
            record.attachment.mountpoint@,
            crate::text::lines(mounts).len(),
        ) == Ok::<Option<((u32, u32), Seq<char>)>, crate::sysfs::Complaint>(Some(mount)),
    ensures
        complete_mount(record, mounts, entries, odd_names) == Ok::<
            ((u32, u32), Seq<char>),
            crate::sysfs::Complaint,
        >(mount) <==> {
            &&& observed.mounted
            &&& observed.vg_active
            &&& proven.mount_permitted
            &&& nodes == nodes_view(proven.nodes@)
        },
{
}

/// The mount at the target is found among the lines of the mount table, wherever
/// it stands.
pub proof fn the_target_mount_is_found(
    lines: Seq<Seq<char>>,
    mountpoint: Seq<char>,
    n: nat,
    k: int,
    mount: ((u32, u32), Seq<char>),
)
    requires
        n <= lines.len(),
        forall|i: int, found: Option<((u32, u32), Seq<char>)>|
            0 <= i < lines.len() && i != k ==> #[trigger] with_mount(lines[i], mountpoint, found)
                == Ok::<Option<((u32, u32), Seq<char>)>, crate::sysfs::Complaint>(found),
        0 <= k < lines.len() ==> with_mount(lines[k], mountpoint, None) == Ok::<
            Option<((u32, u32), Seq<char>)>,
            crate::sysfs::Complaint,
        >(Some(mount)),
    ensures
        mount_upto(lines, mountpoint, n) == Ok::<
            Option<((u32, u32), Seq<char>)>,
            crate::sysfs::Complaint,
        >(
            if 0 <= k < n {
                Some(mount)
            } else {
                None
            },
        ),
    decreases n,
{
    if n > 0 {
        the_target_mount_is_found(lines, mountpoint, (n - 1) as nat, k, mount);
    }
}

/// A mount table is harmless exactly when each of its lines is.
pub proof fn every_mount_line_counts(
    lines: Seq<Seq<char>>,
    mountpoint: Seq<char>,
    nodes: Seq<Node>,
    i: int,
)
    requires
        0 <= i <= lines.len(),
    ensures
        lines_harmless(lines, mountpoint, nodes, i) is Ok <==> forall|k: int|
            i <= k < lines.len() ==> line_harmless(#[trigger] lines[k], mountpoint, nodes) is Ok,
    decreases lines.len() - i,
{
    if i < lines.len() {
        every_mount_line_counts(lines, mountpoint, nodes, i + 1);
        if lines_harmless(lines, mountpoint, nodes, i) is Ok {
            assert(line_harmless(lines[i], mountpoint, nodes) is Ok);
        } else if line_harmless(lines[i], mountpoint, nodes) is Ok {
            let k = choose|k: int|
                i + 1 <= k < lines.len() && !(line_harmless(
                    #[trigger] lines[k],
                    mountpoint,
                    nodes,
                ) is Ok);
            assert(i <= k < lines.len());
        }
    }
}

/// The holders of a device are those that the kernel lists, each as often as it
/// lists them.
pub proof fn holders_are_those_the_kernel_lists(
    entries: Seq<BlockEntry>,
    name: Seq<char>,
    entry: BlockEntry,
    list: Vec<String>,
)
    requires
        crate::sysfs::entry_named(entries, name) == Some(entry),
        entry.holders == Some(list),
    ensures
        list@.len() <= MAX_NODES ==> (holders_of(entries, name) matches Ok(holders)
            && holders.to_multiset() == crate::text::strings(list@).to_multiset()),
        list@.len() > MAX_NODES ==> holders_of(entries, name) is Err,
{
    crate::text::sorting_keeps_every_text(crate::text::strings(list@));
}

proof fn lemma_mapping_from(nodes: Seq<Node>, i: int)
    requires
        0 <= i,
    ensures
        mapping_from(nodes, i) matches Some(k) ==> i <= k < nodes.len() && nodes[k].dm_name is Some
            && forall|j: int| i <= j < k ==> (#[trigger] nodes[j]).dm_name is None,
        mapping_from(nodes, i) is None ==> forall|j: int|
            i <= j < nodes.len() ==> (#[trigger] nodes[j]).dm_name is None,
    decreases nodes.len() - i,
{
    if i < nodes.len() && nodes[i].dm_name is None {
        lemma_mapping_from(nodes, i + 1);
    }
}

/// Only the one mapping of the expected name is removed directly, and only where
/// it is identified, built on something and not built upon.
pub proof fn only_the_expected_mapping_is_removed(nodes: Seq<Node>, expected: Seq<char>) -> (k: int)
    requires
        single_mapping(nodes, expected) is Ok,
    ensures
        0 <= k < nodes.len(),
        single_mapping(nodes, expected) == Ok::<Node, crate::sysfs::Complaint>(nodes[k]),
        nodes[k].dm_name == Some(expected),
        nodes[k].dm_uuid is Some,
        nodes[k].slaves.len() > 0,
        forall|i: int| 0 <= i < nodes.len() && i != k ==> (#[trigger] nodes[i]).dm_name is None,
        forall|i: int|
            0 <= i < nodes.len() ==> !(#[trigger] nodes[i]).slaves.contains(nodes[k].name),
{
    lemma_mapping_from(nodes, 0);
    let k = mapping_from(nodes, 0)->Some_0;
    lemma_mapping_from(nodes, k + 1);
    k
}

} // verus!
