//! Secure mount validation. If any check fails, the dependent service must not
//! start.
//!
//! There are two layers: [`verify_mount_device`] runs first, before anything is
//! written to the filesystem, and shows that its bytes live on the NBD device of
//! this attach and nowhere else; [`verify_mount_identity`] then checks the filesystem type and UUID, the
//! sentinel, the NBD connection and the read/write probe. A sentinel is never a
//! substitute for the device check: on a fresh filesystem the helper itself
//! creates it.

use vstd::prelude::*;

use crate::text::{join2, join3, quote, quote_list, quote_option, same};

verus! {

broadcast use vstd::seq::group_seq_axioms;

/// What the mount must turn out to be.
#[derive(Debug)]
pub struct MountExpectation {
    /// Expected XFS filesystem UUID (`None` = skip, for a first boot).
    pub fs_uuid: Option<String>,
    /// The volume UUID recorded in the sentinel file.
    pub volume_uuid: String,
    /// The NBD device (`/dev/nbdN`) every byte of the mounted filesystem must
    /// be stored on.
    pub nbd_device: String,
}

/// Facts gathered about a mount.
#[derive(Debug)]
pub struct MountObservation {
    pub mountpoint_exists: bool,
    pub fstype: Option<String>,
    pub fs_uuid: Option<String>,
    /// Volume UUID read from the sentinel file.
    pub sentinel_volume_uuid: Option<String>,
    pub nbd_connected: bool,
    pub rw_probe_ok: bool,
    /// The block devices the mounted filesystem ultimately lives on, as
    /// `/dev/...` names with partitions folded into their NBD device. Empty
    /// when they could not be resolved.
    pub backing_devices: Vec<String>,
}

/// Why a mount was refused.
#[derive(Debug)]
pub struct MountVerifyError(pub String);

impl MountVerifyError {
    pub fn to_string(&self) -> (r: String)
        ensures
            r@ == "secure mount validation failed: "@ + self.0@,
    {
        join2("secure mount validation failed: ", self.0.as_str())
    }
}

/// The devices that were found are all `nbd_device`.
pub open spec fn only_on(devices: Seq<Seq<char>>, nbd_device: Seq<char>) -> bool {
    forall|i: int| 0 <= i < devices.len() ==> #[trigger] devices[i] == nbd_device
}

/// The complaint about where the mounted bytes live.
pub open spec fn device_complaint(nbd_device: Seq<char>, observed: MountObservation) -> Option<
    Seq<char>,
> {
    let devices = crate::text::strings(observed.backing_devices@);
    if !observed.mountpoint_exists {
        Some("mountpoint does not exist"@)
    } else if observed.fstype is None {
        Some("nothing is mounted at the mountpoint"@)
    } else if devices.len() == 0 {
        Some("could not resolve the block devices under the mounted filesystem"@)
    } else if !only_on(devices, nbd_device) {
        Some(
            "the mounted filesystem is not stored only on "@ + nbd_device
                + ": its backing devices are "@ + crate::text::quoted_list(devices),
        )
    } else {
        None
    }
}

/// The complaint about the whole mount.
pub open spec fn identity_complaint(
    expected: MountExpectation,
    observed: MountObservation,
) -> Option<Seq<char>> {
    let fstype = crate::text::optional(observed.fstype);
    let fs_uuid = crate::text::optional(observed.fs_uuid);
    let sentinel = crate::text::optional(observed.sentinel_volume_uuid);
    if device_complaint(expected.nbd_device@, observed) is Some {
        device_complaint(expected.nbd_device@, observed)
    } else if fstype != Some("xfs"@) {
        Some("filesystem type "@ + crate::text::quoted_option(fstype) + " is not XFS"@)
    } else if expected.fs_uuid is Some && fs_uuid != crate::text::optional(expected.fs_uuid) {
        Some(
            "filesystem UUID mismatch: "@ + crate::text::quoted_option(fs_uuid) + " != expected "@
                + crate::text::quoted(expected.fs_uuid->0@),
        )
    } else if sentinel != Some(expected.volume_uuid@) {
        Some(
            "Maki volume sentinel mismatch: "@ + crate::text::quoted_option(sentinel) + " != "@
                + crate::text::quoted(expected.volume_uuid@),
        )
    } else if !observed.nbd_connected {
        Some("NBD connection is not active"@)
    } else if !observed.rw_probe_ok {
        Some("read/write probe failed"@)
    } else {
        None
    }
}

/// The outcome of a check that raises the given complaint.
pub open spec fn judged(r: Result<(), MountVerifyError>, complaint: Option<Seq<char>>) -> bool {
    match r {
        Ok(()) => complaint is None,
        Err(e) => complaint == Some(e.0@),
    }
}

/// The mounted filesystem is on `nbd_device` and only on it. A filesystem with
/// no resolvable backing, or with any other device underneath, is refused. An
/// attach asks this right after it mounted, before it writes anything there.
pub fn verify_mount_device(nbd_device: &str, observed: &MountObservation) -> (r: Result<
    (),
    MountVerifyError,
>)
    ensures
        judged(r, device_complaint(nbd_device@, *observed)),
{
    if !observed.mountpoint_exists {
        return Err(MountVerifyError("mountpoint does not exist".to_owned()));
    }
    if observed.fstype.is_none() {
        return Err(MountVerifyError("nothing is mounted at the mountpoint".to_owned()));
    }
    if observed.backing_devices.len() == 0 {
        return Err(
            MountVerifyError(
                "could not resolve the block devices under the mounted filesystem".to_owned(),
            ),
        );
    }
    let ghost devices = crate::text::strings(observed.backing_devices@);
    let mut i: usize = 0;
    while i < observed.backing_devices.len()
        invariant
            i <= observed.backing_devices.len(),
            devices == crate::text::strings(observed.backing_devices@),
            observed.mountpoint_exists,
            observed.fstype is Some,
            devices.len() > 0,
            forall|k: int| 0 <= k < i ==> #[trigger] devices[k] == nbd_device@,
        decreases observed.backing_devices.len() - i,
    {
        assert(devices[i as int] == observed.backing_devices@[i as int]@);
        if !same(observed.backing_devices[i].as_str(), nbd_device) {
            let mut message = join3(
                "the mounted filesystem is not stored only on ",
                nbd_device,
                ": its backing devices are ",
            );
            message.append(quote_list(&observed.backing_devices).as_str());
            return Err(MountVerifyError(message));
        }
        i += 1;
    }
    Ok(())
}

pub fn verify_mount_identity(expected: &MountExpectation, observed: &MountObservation) -> (r:
    Result<(), MountVerifyError>)
    ensures
        judged(r, identity_complaint(*expected, *observed)),
{
    match verify_mount_device(expected.nbd_device.as_str(), observed) {
        Ok(()) => {},
        Err(e) => return Err(e),
    }
    let xfs = match &observed.fstype {
        Some(fstype) => same(fstype.as_str(), "xfs"),
        None => false,
    };
    if !xfs {
        return Err(
            MountVerifyError(
                join3("filesystem type ", quote_option(&observed.fstype).as_str(), " is not XFS"),
            ),
        );
    }
    match &expected.fs_uuid {
        Some(pinned) => {
            let matches = match &observed.fs_uuid {
                Some(uuid) => same(uuid.as_str(), pinned.as_str()),
                None => false,
            };
            if !matches {
                let mut message = join3(
                    "filesystem UUID mismatch: ",
                    quote_option(&observed.fs_uuid).as_str(),
                    " != expected ",
                );
                message.append(quote(pinned.as_str()).as_str());
                return Err(MountVerifyError(message));
            }
        },
        None => {},
    }
    let sentinel = match &observed.sentinel_volume_uuid {
        Some(uuid) => same(uuid.as_str(), expected.volume_uuid.as_str()),
        None => false,
    };
    if !sentinel {
        let mut message = join3(
            "Maki volume sentinel mismatch: ",
            quote_option(&observed.sentinel_volume_uuid).as_str(),
            " != ",
        );
        message.append(quote(expected.volume_uuid.as_str()).as_str());
        return Err(MountVerifyError(message));
    }
    if !observed.nbd_connected {
        return Err(MountVerifyError("NBD connection is not active".to_owned()));
    }
    if !observed.rw_probe_ok {
        return Err(MountVerifyError("read/write probe failed".to_owned()));
    }
    Ok(())
}

// ---------- laws ----------

/// A mount is accepted exactly when it exists, is XFS, lives on the expected
/// device and only there, carries the pinned filesystem UUID where one is
/// pinned and the expected sentinel, and is connected and writable.
pub proof fn accepted_mounts_are_exactly_the_expected_ones(
    expected: MountExpectation,
    observed: MountObservation,
)
    ensures
        identity_complaint(expected, observed) is None <==> {
            &&& observed.mountpoint_exists
            &&& crate::text::optional(observed.fstype) == Some("xfs"@)
            &&& observed.backing_devices@.len() > 0
            &&& only_on(crate::text::strings(observed.backing_devices@), expected.nbd_device@)
            &&& expected.fs_uuid is Some ==> crate::text::optional(observed.fs_uuid)
                == crate::text::optional(expected.fs_uuid)
            &&& crate::text::optional(observed.sentinel_volume_uuid) == Some(expected.volume_uuid@)
            &&& observed.nbd_connected
            &&& observed.rw_probe_ok
        },
{
}

/// No sentinel makes up for a foreign device: a mount that fails the device
/// check is never accepted.
pub proof fn sentinel_never_replaces_the_device_check(
    expected: MountExpectation,
    observed: MountObservation,
)
    requires
        device_complaint(expected.nbd_device@, observed) is Some,
    ensures
        identity_complaint(expected, observed) == device_complaint(expected.nbd_device@, observed),
{
}

/// A mount is on the device exactly when it is there, something is mounted, its
/// backing is known, and every backing device is the expected one.
pub proof fn mounts_are_on_their_device_alone(nbd_device: Seq<char>, observed: MountObservation)
    ensures
        device_complaint(nbd_device, observed) is None <==> {
            &&& observed.mountpoint_exists
            &&& observed.fstype is Some
            &&& observed.backing_devices@.len() > 0
            &&& forall|i: int|
                0 <= i < observed.backing_devices@.len() ==> (
                #[trigger] observed.backing_devices@[i])@ == nbd_device
        },
{
    let devices = crate::text::strings(observed.backing_devices@);
    assert forall|i: int| 0 <= i < devices.len() implies #[trigger] devices[i]
        == observed.backing_devices@[i]@ by {}
    if only_on(devices, nbd_device) {
        assert forall|i: int| 0 <= i < observed.backing_devices@.len() implies (
        #[trigger] observed.backing_devices@[i])@ == nbd_device by {
            assert(devices[i] == nbd_device);
        }
    }
}

/// A mount is accepted exactly without a complaint, and refused with its very
/// text.
pub proof fn mounts_are_refused_by_their_complaint(
    r: Result<(), MountVerifyError>,
    complaint: Option<Seq<char>>,
)
    ensures
        judged(r, complaint) ==> (r is Ok <==> complaint is None),
        judged(r, complaint) ==> (r matches Err(e) ==> complaint == Some(e.0@)),
        complaint is None ==> judged(Ok(()), complaint),
{
}

} // verus!
