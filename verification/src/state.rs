//! Root-controlled attach state: the record of an attachment, and the rules for
//! the files that hold it. Every directory on the way is opened relative to one
//! that was already found trustworthy; symbolic links and ancestors that
//! somebody else can write to are refused before any lock or record is opened.

use vstd::prelude::*;

use crate::config::{
    check_abs_path, check_lvm_name, check_uuid, check_volume_name, ConfigError,
};
use crate::crash_backing::ErrorKind;
use crate::lvm_preflight::validate_recovery_identity;
use crate::plan::AttachmentIdentity;
use crate::probe::nbd_index;
use crate::recover::{RecoveryIntent, RecoveryProof};
use crate::text::{join2, join5, same, show, strip_prefix};

verus! {

broadcast use vstd::seq::group_seq_axioms;

/// A longer record is not read.
pub const RECORD_MAX_BYTES: u64 = 4096;

/// What identifies an attachment that this helper made.
pub struct BoundDeviceRecord {
    pub version: u32,
    pub volume: String,
    pub attachment: AttachmentIdentity,
    pub device: String,
    /// Handed to the kernel when the device is connected and held against the
    /// live backend before anything is torn down.
    pub connection_id: String,
    /// What the attach saw once its volume group was active.
    pub recovery: Option<RecoveryProof>,
    /// What the attach had verified before it activated anything.
    pub recovery_intent: Option<RecoveryIntent>,
    /// The size in bytes that an unfinished growth gives the volume.
    pub growth_target: Option<u64>,
}

/// The texts of a [`BoundDeviceRecord`].
pub struct Record {
    pub version: u32,
    pub volume: Seq<char>,
    pub attachment: crate::plan::Identity,
    pub device: Seq<char>,
    pub connection_id: Seq<char>,
    pub recovery: Option<(Seq<crate::recover::Node>, bool)>,
    pub recovery_intent: Option<crate::lvm_preflight::Verified>,
    pub growth_target: Option<u64>,
}

impl View for BoundDeviceRecord {
    type V = Record;

    open spec fn view(&self) -> Record {
        Record {
            version: self.version,
            volume: self.volume@,
            attachment: self.attachment@,
            device: self.device@,
            connection_id: self.connection_id@,
            recovery: match self.recovery {
                Some(proof) => Some((crate::recover::nodes_view(proof.nodes@), proof.mount_permitted)),
                None => None,
            },
            recovery_intent: match self.recovery_intent {
                Some(intent) => Some(intent.verified@),
                None => None,
            },
            growth_target: self.growth_target,
        }
    }
}

impl Clone for BoundDeviceRecord {
    fn clone(&self) -> (res: Self)
        ensures
            res@ == self@,
    {
        BoundDeviceRecord {
            version: self.version,
            volume: self.volume.clone(),
            attachment: self.attachment.clone(),
            device: self.device.clone(),
            connection_id: self.connection_id.clone(),
            recovery: match &self.recovery {
                Some(proof) => Some(proof.clone()),
                None => None,
            },
            recovery_intent: match &self.recovery_intent {
                Some(intent) => Some(intent.clone()),
                None => None,
            },
            growth_target: self.growth_target,
        }
    }
}

/// The rendered complaint of a configuration rule.
pub open spec fn rule_text(complaint: Option<Seq<char>>) -> Option<Seq<char>> {
    match complaint {
        Some(m) => Some("attach config invalid: "@ + m),
        None => None,
    }
}

/// The complaint about the connection identifier.
pub open spec fn connection_complaint(id: Seq<char>) -> Option<Seq<char>> {
    match crate::text::after_prefix(id, "maki-"@) {
        Some(nonce) => rule_text(crate::config::uuid_complaint("connection_id"@, nonce)),
        None => Some("invalid attachment identifier"@),
    }
}

/// The complaint about the names in a record.
pub open spec fn names_complaint(record: BoundDeviceRecord) -> Option<Seq<char>> {
    crate::config::first_complaint(
        rule_text(crate::config::volume_complaint(record.volume@)),
        crate::config::first_complaint(
            rule_text(
                crate::config::uuid_complaint("volume_uuid"@, record.attachment.volume_uuid@),
            ),
            crate::config::first_complaint(
                rule_text(
                    crate::config::abs_path_complaint(
                        "nbd_socket"@,
                        record.attachment.nbd_socket@,
                    ),
                ),
                crate::config::first_complaint(
                    rule_text(
                        crate::config::abs_path_complaint(
                            "mountpoint"@,
                            record.attachment.mountpoint@,
                        ),
                    ),
                    crate::config::first_complaint(
                        rule_text(
                            crate::config::lvm_complaint("vg_name"@, record.attachment.vg_name@),
                        ),
                        rule_text(
                            crate::config::lvm_complaint("lv_name"@, record.attachment.lv_name@),
                        ),
                    ),
                ),
            ),
        ),
    )
}

/// The complaint about a record, in the order of the checks.
pub open spec fn record_complaint(record: BoundDeviceRecord) -> Option<Seq<char>> {
    crate::config::first_complaint(
        names_complaint(record),
        crate::config::first_complaint(
            connection_complaint(record.connection_id@),
            if record.version != 1 || crate::probe::device_index(record.device@) is None {
                Some("unsupported or invalid attach record"@)
            } else {
                match record.recovery_intent {
                    Some(intent) => crate::lvm_preflight::persisted_complaint(
                        record.device@,
                        record.attachment.lv_name@,
                        intent.verified@,
                        intent.verified.lvs.keys(),
                    ),
                    None => None,
                }
            },
        ),
    )
}

/// The outcome of a check that raises the given complaint.
pub open spec fn accepted(r: Result<(), String>, complaint: Option<Seq<char>>) -> bool {
    match r {
        Ok(()) => complaint is None,
        Err(m) => complaint == Some(m@),
    }
}

fn as_text(r: Result<(), ConfigError>) -> (s: Result<(), String>)
    ensures
        forall|c: Option<Seq<char>>| #[trigger]
            crate::config::answers(r, c) ==> accepted(s, rule_text(c)),
{
    match r {
        Ok(()) => Ok(()),
        Err(e) => Err(e.to_string()),
    }
}

impl BoundDeviceRecord {
    fn check_names(&self) -> (r: Result<(), String>)
        ensures
            accepted(r, names_complaint(*self)),
    {
        let volume = check_volume_name(self.volume.as_str());
        match as_text(volume) {
            Ok(()) => {},
            Err(m) => return Err(m),
        }
        let uuid = check_uuid("volume_uuid", self.attachment.volume_uuid.as_str());
        match as_text(uuid) {
            Ok(()) => {},
            Err(m) => return Err(m),
        }
        let socket = check_abs_path("nbd_socket", self.attachment.nbd_socket.as_str());
        match as_text(socket) {
            Ok(()) => {},
            Err(m) => return Err(m),
        }
        let mountpoint = check_abs_path("mountpoint", self.attachment.mountpoint.as_str());
        match as_text(mountpoint) {
            Ok(()) => {},
            Err(m) => return Err(m),
        }
        let vg = check_lvm_name("vg_name", self.attachment.vg_name.as_str());
        match as_text(vg) {
            Ok(()) => {},
            Err(m) => return Err(m),
        }
        let lv = check_lvm_name("lv_name", self.attachment.lv_name.as_str());
        as_text(lv)
    }

    /// Hold a record to the rules: well-formed names, an identifier that this
    /// helper gave out, and, where there is one, a consistent intent.
    pub fn validate(&self) -> (r: Result<(), String>)
        ensures
            accepted(r, record_complaint(*self)),
    {
        match self.check_names() {
            Ok(()) => {},
            Err(m) => return Err(m),
        }
        let nonce = match strip_prefix(self.connection_id.as_str(), "maki-") {
            Some(nonce) => nonce,
            None => return Err("invalid attachment identifier".to_owned()),
        };
        let identifier = check_uuid("connection_id", nonce);
        match as_text(identifier) {
            Ok(()) => {},
            Err(m) => return Err(m),
        }
        if self.version != 1 || nbd_index(self.device.as_str()).is_none() {
            return Err("unsupported or invalid attach record".to_owned());
        }
        match &self.recovery_intent {
            Some(intent) => match validate_recovery_identity(self, &intent.verified) {
                Ok(()) => Ok(()),
                Err(e) => Err(e.to_string()),
            },
            None => Ok(()),
        }
    }
}

/// What was found out about an open file.
#[derive(Debug, Clone, Copy, PartialEq, Eq, Structural)]
pub struct FileFacts {
    pub is_dir: bool,
    pub is_file: bool,
    pub uid: u32,
    pub mode: u32,
    pub nlink: u64,
}

/// A directory that nobody but the owner can change.
pub open spec fn trusted(facts: FileFacts, owner: u32) -> bool {
    facts.is_dir && facts.uid == owner && facts.mode & 0o022 == 0
}

/// A regular file that only the owner can open, under one name.
pub open spec fn private(facts: FileFacts, owner: u32) -> bool {
    facts.is_file && facts.uid == owner && facts.mode & 0o077 == 0 && facts.nlink == 1
}

pub fn trusted_directory(facts: &FileFacts, owner: u32) -> (r: Result<(), String>)
    ensures
        accepted(
            r,
            if trusted(*facts, owner) {
                None
            } else {
                Some(
                    "attach state ancestor must be a root-owned directory without group/other write access"@,
                )
            },
        ),
{
    if !facts.is_dir || facts.uid != owner || facts.mode & 0o022 != 0 {
        Err(
            "attach state ancestor must be a root-owned directory without group/other write access".to_owned(),
        )
    } else {
        Ok(())
    }
}

pub fn private_regular_file(facts: &FileFacts, owner: u32) -> (r: Result<(), String>)
    ensures
        accepted(
            r,
            if private(*facts, owner) {
                None
            } else {
                Some("attach state must be a private root-owned regular file with one link"@)
            },
        ),
{
    if !facts.is_file || facts.uid != owner || facts.mode & 0o077 != 0 || facts.nlink != 1 {
        Err("attach state must be a private root-owned regular file with one link".to_owned())
    } else {
        Ok(())
    }
}

/// What follows when a directory on the way could not be opened.
#[derive(Debug, Clone, Copy, PartialEq, Eq, Structural)]
pub enum MissingDirectory {
    Create,
    Refuse,
}

/// Only the last directory on the way may be created: its parent was already
/// found trustworthy through an open descriptor.
pub fn missing_directory(kind: ErrorKind, index: usize, count: usize) -> (r: MissingDirectory)
    requires
        index < count,
    ensures
        r == if kind == ErrorKind::NotFound && index == count - 1 {
            MissingDirectory::Create
        } else {
            MissingDirectory::Refuse
        },
{
    if kind == ErrorKind::NotFound && index == count - 1 {
        MissingDirectory::Create
    } else {
        MissingDirectory::Refuse
    }
}

/// The name of a volume's record in the state directory.
pub fn record_name(volume: &str) -> (r: Result<String, String>)
    ensures
        match r {
            Ok(name) => crate::config::volume_complaint(volume@) is None && name@ == volume@
                + ".nbd"@,
            Err(m) => rule_text(crate::config::volume_complaint(volume@)) == Some(m@),
        },
{
    let checked = check_volume_name(volume);
    match as_text(checked) {
        Ok(()) => Ok(join2(volume, ".nbd")),
        Err(m) => Err(m),
    }
}

/// The name under which a record is written before it takes its place.
pub fn temporary_name(record: &BoundDeviceRecord, pid: u32) -> (r: String)
    ensures
        r@ == "."@ + record.volume@ + "."@ + crate::text::decimal(pid as nat) + "."@
            + record.connection_id@ + ".tmp"@,
{
    let mut out = join5(".", record.volume.as_str(), ".", show(pid as u64).as_str(), ".");
    out.append(record.connection_id.as_str());
    out.append(".tmp");
    out
}

/// Judge what was read as a volume's record: `parsed` is the record that the
/// bytes denote, if they denote one.
pub fn accept_record(len: u64, parsed: Option<BoundDeviceRecord>, volume: &str) -> (r: Result<
    BoundDeviceRecord,
    String,
>)
    ensures
        match r {
            Ok(record) => len <= RECORD_MAX_BYTES && parsed == Some(record) && record_complaint(
                record,
            ) is None && record.volume@ == volume@,
            Err(m) => Some(m@) == if len > RECORD_MAX_BYTES {
                Some("attach record exceeds size limit"@)
            } else if parsed is None {
                Some("invalid attach record; legacy device-only records are not trusted"@)
            } else {
                crate::config::first_complaint(
                    record_complaint(parsed->Some_0),
                    if parsed->Some_0.volume@ != volume@ {
                        Some("attach record belongs to a different volume"@)
                    } else {
                        None
                    },
                )
            },
        },
{
    if len > RECORD_MAX_BYTES {
        return Err("attach record exceeds size limit".to_owned());
    }
    let record = match parsed {
        Some(record) => record,
        None => return Err(
            "invalid attach record; legacy device-only records are not trusted".to_owned(),
        ),
    };
    match record.validate() {
        Ok(()) => {},
        Err(m) => return Err(m),
    }
    if !same(record.volume.as_str(), volume) {
        return Err("attach record belongs to a different volume".to_owned());
    }
    Ok(record)
}

/// Whether a record of that many bytes may be written.
pub fn check_size(len: u64) -> (r: Result<(), String>)
    ensures
        accepted(
            r,
            if len > RECORD_MAX_BYTES {
                Some("attach record exceeds size limit"@)
            } else {
                None
            },
        ),
{
    if len > RECORD_MAX_BYTES {
        Err("attach record exceeds size limit".to_owned())
    } else {
        Ok(())
    }
}

// ---------- laws ----------

/// The name of a record never leaves the state directory: it holds no slash,
/// and is neither the directory itself nor its parent.
pub proof fn record_names_stay_in_the_directory(volume: Seq<char>)
    requires
        crate::config::volume_complaint(volume) is None,
    ensures
        !(volume + ".nbd"@).contains('/'),
        volume + ".nbd"@ != "."@,
        volume + ".nbd"@ != ".."@,
{
    reveal_strlit(".nbd");
    reveal_strlit(".");
    reveal_strlit("..");
    let name = volume + ".nbd"@;
    assert(name.len() >= 4);
    assert forall|i: int| 0 <= i < name.len() implies name[i] != '/' by {
        if i < volume.len() {
            assert(name[i] == volume[i]);
            assert(crate::config::volume_char(volume[i]));
        } else {
            assert(name[i] == ".nbd"@[i - volume.len()]);
        }
    }
}

/// A record that was accepted names one NBD device, belongs to a well-formed
/// volume, and carries an identifier that this helper gave out.
pub proof fn accepted_records_are_well_formed(record: BoundDeviceRecord)
    requires
        record_complaint(record) is None,
    ensures
        record.version == 1,
        crate::probe::device_index(record.device@) is Some,
        crate::config::volume_complaint(record.volume@) is None,
        crate::config::lvm_complaint("vg_name"@, record.attachment.vg_name@) is None,
        crate::config::lvm_complaint("lv_name"@, record.attachment.lv_name@) is None,
        crate::text::after_prefix(record.connection_id@, "maki-"@) matches Some(nonce)
            && crate::config::uuid_complaint("connection_id"@, nonce) is None,
{
}

/// A record is accepted exactly when its version is the one this helper writes,
/// its names are well-formed, its device is a numbered one, and its identifier
/// is one that was given out; an intent must be consistent besides.
pub proof fn records_are_accepted_by_these_rules(record: BoundDeviceRecord, nonce: Seq<char>)
    requires
        record.recovery_intent is None,
        record.connection_id@ == "maki-"@ + nonce,
    ensures
        record_complaint(record) is None <==> {
            &&& record.version == 1
            &&& crate::probe::device_index(record.device@) is Some
            &&& crate::config::volume_complaint(record.volume@) is None
            &&& crate::config::uuid_complaint(
                "volume_uuid"@,
                record.attachment.volume_uuid@,
            ) is None
            &&& crate::config::abs_path_complaint(
                "nbd_socket"@,
                record.attachment.nbd_socket@,
            ) is None
            &&& crate::config::abs_path_complaint(
                "mountpoint"@,
                record.attachment.mountpoint@,
            ) is None
            &&& crate::config::lvm_complaint("vg_name"@, record.attachment.vg_name@) is None
            &&& crate::config::lvm_complaint("lv_name"@, record.attachment.lv_name@) is None
            &&& crate::config::uuid_complaint("connection_id"@, nonce) is None
        },
{
    crate::text::prefixes_come_off("maki-"@, nonce);
}

/// A directory is trusted exactly when it is the owner's and neither its group
/// nor others may write to it; a file is private when nobody else may do
/// anything with it and it has no second name.
pub proof fn others_are_kept_out(facts: FileFacts, owner: u32)
    ensures
        trusted(facts, owner) <==> facts.is_dir && facts.uid == owner && facts.mode & 0o020 == 0
            && facts.mode & 0o002 == 0,
        private(facts, owner) <==> facts.is_file && facts.uid == owner && facts.mode & 0o070 == 0
            && facts.mode & 0o007 == 0 && facts.nlink == 1,
{
    let mode = facts.mode;
    assert(mode & 0o022 == 0 <==> mode & 0o020 == 0 && mode & 0o002 == 0) by (bit_vector);
    assert(mode & 0o077 == 0 <==> mode & 0o070 == 0 && mode & 0o007 == 0) by (bit_vector);
}

/// A record is accepted exactly without a complaint, and refused with its very
/// text. A configuration rule says which file is at fault.
pub proof fn records_are_refused_by_their_complaint(
    r: Result<(), String>,
    complaint: Option<Seq<char>>,
    text: Seq<char>,
)
    ensures
        accepted(r, complaint) ==> (r is Ok <==> complaint is None),
        accepted(r, complaint) ==> (r matches Err(m) ==> complaint == Some(m@)),
        complaint is None ==> accepted(Ok(()), complaint),
        rule_text(None) is None,
        rule_text(Some(text)) == Some("attach config invalid: "@ + text),
        crate::text::after_prefix(text, "maki-"@) is None ==> connection_complaint(text) == Some(
            "invalid attachment identifier"@,
        ),
{
}

} // verus!
