//! Deterministic operation plans for the privileged helper.
//!
//! Plans are plain data: they can be read, rendered and tested before anything
//! runs. An attach may leave the NBD device unassigned ([`AUTO_NBD_DEVICE`]);
//! the executor allocates a free device and binds it into the plan. Every plan
//! can be rolled back: [`rollback_steps`] derives the compensating steps of a
//! prefix that already ran, newest first.

use vstd::prelude::*;

use crate::text::{join2, join3, join5, show, clone_optional, same};

verus! {

broadcast use vstd::seq::group_seq_axioms;

/// Placeholder for "allocate a free `/dev/nbdN` at execution time".
pub const AUTO_NBD_DEVICE: &'static str = "/dev/nbd<auto>";

/// Name of the sentinel file the mount guard reads.
pub const SENTINEL_FILE: &'static str = ".maki-sentinel";

/// The helper's own root-owned runtime directory.
pub const BOUND_DEVICE_RECORD_DIR: &'static str = "/run/maki-attach";

/// Everything an attach needs to know about one volume.
#[derive(Debug)]
pub struct AttachRequest {
    pub volume: String,
    pub nbd_socket: String,
    /// A concrete `/dev/nbdN`, or [`AUTO_NBD_DEVICE`].
    pub nbd_device: String,
    pub device_block_size: u32,
    pub vg_name: String,
    pub lv_name: String,
    pub mountpoint: String,
    /// The volume UUID the mounted filesystem's sentinel must carry.
    pub volume_uuid: String,
    /// Expected XFS filesystem UUID (`None` = not pinned).
    pub fs_uuid: Option<String>,
    /// Write the sentinel if the filesystem has none yet (first boot).
    pub init_sentinel: bool,
}

impl Clone for AttachRequest {
    fn clone(&self) -> (res: Self)
        ensures
            res == *self,
    {
        AttachRequest {
            volume: self.volume.clone(),
            nbd_socket: self.nbd_socket.clone(),
            nbd_device: self.nbd_device.clone(),
            device_block_size: self.device_block_size,
            vg_name: self.vg_name.clone(),
            lv_name: self.lv_name.clone(),
            mountpoint: self.mountpoint.clone(),
            volume_uuid: self.volume_uuid.clone(),
            fs_uuid: clone_optional(&self.fs_uuid),
            init_sentinel: self.init_sentinel,
        }
    }
}

/// An online growth of one volume.
#[derive(Debug)]
pub struct GrowRequest {
    pub volume: String,
    pub vg_name: String,
    pub lv_name: String,
    pub add_bytes: u64,
    pub mountpoint: String,
}

impl Clone for GrowRequest {
    fn clone(&self) -> (res: Self)
        ensures
            res == *self,
    {
        GrowRequest {
            volume: self.volume.clone(),
            vg_name: self.vg_name.clone(),
            lv_name: self.lv_name.clone(),
            add_bytes: self.add_bytes,
            mountpoint: self.mountpoint.clone(),
        }
    }
}

/// What identifies an attachment across helper runs.
#[derive(Debug, PartialEq, Eq)]
pub struct AttachmentIdentity {
    pub volume_uuid: String,
    pub nbd_socket: String,
    pub mountpoint: String,
    pub vg_name: String,
    pub lv_name: String,
}

/// The texts of an [`AttachmentIdentity`].
pub struct Identity {
    pub volume_uuid: Seq<char>,
    pub nbd_socket: Seq<char>,
    pub mountpoint: Seq<char>,
    pub vg_name: Seq<char>,
    pub lv_name: Seq<char>,
}

impl View for AttachmentIdentity {
    type V = Identity;

    open spec fn view(&self) -> Identity {
        Identity {
            volume_uuid: self.volume_uuid@,
            nbd_socket: self.nbd_socket@,
            mountpoint: self.mountpoint@,
            vg_name: self.vg_name@,
            lv_name: self.lv_name@,
        }
    }
}

impl Clone for AttachmentIdentity {
    fn clone(&self) -> (res: Self)
        ensures
            res == *self,
    {
        AttachmentIdentity {
            volume_uuid: self.volume_uuid.clone(),
            nbd_socket: self.nbd_socket.clone(),
            mountpoint: self.mountpoint.clone(),
            vg_name: self.vg_name.clone(),
            lv_name: self.lv_name.clone(),
        }
    }
}

/// The identity that a request asks for.
pub open spec fn identity_of(request: AttachRequest) -> Identity {
    Identity {
        volume_uuid: request.volume_uuid@,
        nbd_socket: request.nbd_socket@,
        mountpoint: request.mountpoint@,
        vg_name: request.vg_name@,
        lv_name: request.lv_name@,
    }
}

impl AttachmentIdentity {
    pub fn of_request(request: &AttachRequest) -> (r: Self)
        ensures
            r@ == identity_of(*request),
    {
        AttachmentIdentity {
            volume_uuid: request.volume_uuid.clone(),
            nbd_socket: request.nbd_socket.clone(),
            mountpoint: request.mountpoint.clone(),
            vg_name: request.vg_name.clone(),
            lv_name: request.lv_name.clone(),
        }
    }

    /// Equality of all five parts.
    pub fn matches(&self, other: &AttachmentIdentity) -> (r: bool)
        ensures
            r == (self@ == other@),
    {
        same(self.volume_uuid.as_str(), other.volume_uuid.as_str()) && same(
            self.nbd_socket.as_str(),
            other.nbd_socket.as_str(),
        ) && same(self.mountpoint.as_str(), other.mountpoint.as_str()) && same(
            self.vg_name.as_str(),
            other.vg_name.as_str(),
        ) && same(self.lv_name.as_str(), other.lv_name.as_str())
    }
}

/// One step of a plan.
#[derive(Debug, PartialEq, Eq)]
pub enum PlannedStep {
    ModprobeNbd,
    NbdConnect { socket: String, device: String, block_size: u32 },
    SetBlockSize { device: String, block_size: u32 },
    LvmActivate { vg_name: String },
    LvmDeactivate { vg_name: String },
    MountXfs { device: String, mountpoint: String },
    /// Create `<mountpoint>/.maki-sentinel` holding the volume UUID if it
    /// does not exist yet; never overwrite a different value.
    WriteSentinel { mountpoint: String, volume_uuid: String },
    VerifyMountIdentity {
        mountpoint: String,
        volume_uuid: String,
        fs_uuid: Option<String>,
        nbd_device: String,
    },
    Umount { mountpoint: String },
    NbdDisconnect { device: String },
    LvExtend { vg_name: String, lv_name: String, add_bytes: u64 },
    XfsGrowfs { mountpoint: String },
}

/// The texts of a [`PlannedStep`].
pub enum Step {
    ModprobeNbd,
    NbdConnect { socket: Seq<char>, device: Seq<char>, block_size: u32 },
    SetBlockSize { device: Seq<char>, block_size: u32 },
    LvmActivate { vg_name: Seq<char> },
    LvmDeactivate { vg_name: Seq<char> },
    MountXfs { device: Seq<char>, mountpoint: Seq<char> },
    WriteSentinel { mountpoint: Seq<char>, volume_uuid: Seq<char> },
    VerifyMountIdentity {
        mountpoint: Seq<char>,
        volume_uuid: Seq<char>,
        fs_uuid: Option<Seq<char>>,
        nbd_device: Seq<char>,
    },
    Umount { mountpoint: Seq<char> },
    NbdDisconnect { device: Seq<char> },
    LvExtend { vg_name: Seq<char>, lv_name: Seq<char>, add_bytes: u64 },
    XfsGrowfs { mountpoint: Seq<char> },
}

impl View for PlannedStep {
    type V = Step;

    open spec fn view(&self) -> Step {
        match *self {
            PlannedStep::ModprobeNbd => Step::ModprobeNbd,
            PlannedStep::NbdConnect { socket, device, block_size } => Step::NbdConnect {
                socket: socket@,
                device: device@,
                block_size,
            },
            PlannedStep::SetBlockSize { device, block_size } => Step::SetBlockSize {
                device: device@,
                block_size,
            },
            PlannedStep::LvmActivate { vg_name } => Step::LvmActivate { vg_name: vg_name@ },
            PlannedStep::LvmDeactivate { vg_name } => Step::LvmDeactivate { vg_name: vg_name@ },
            PlannedStep::MountXfs { device, mountpoint } => Step::MountXfs {
                device: device@,
                mountpoint: mountpoint@,
            },
            PlannedStep::WriteSentinel { mountpoint, volume_uuid } => Step::WriteSentinel {
                mountpoint: mountpoint@,
                volume_uuid: volume_uuid@,
            },
            PlannedStep::VerifyMountIdentity { mountpoint, volume_uuid, fs_uuid, nbd_device } =>
            Step::VerifyMountIdentity {
                mountpoint: mountpoint@,
                volume_uuid: volume_uuid@,
                fs_uuid: crate::text::optional(fs_uuid),
                nbd_device: nbd_device@,
            },
            PlannedStep::Umount { mountpoint } => Step::Umount { mountpoint: mountpoint@ },
            PlannedStep::NbdDisconnect { device } => Step::NbdDisconnect { device: device@ },
            PlannedStep::LvExtend { vg_name, lv_name, add_bytes } => Step::LvExtend {
                vg_name: vg_name@,
                lv_name: lv_name@,
                add_bytes,
            },
            PlannedStep::XfsGrowfs { mountpoint } => Step::XfsGrowfs { mountpoint: mountpoint@ },
        }
    }
}

impl Clone for PlannedStep {
    fn clone(&self) -> (res: Self)
        ensures
            res == *self,
    {
        match self {
            PlannedStep::ModprobeNbd => PlannedStep::ModprobeNbd,
            PlannedStep::NbdConnect { socket, device, block_size } => PlannedStep::NbdConnect {
                socket: socket.clone(),
                device: device.clone(),
                block_size: *block_size,
            },
            PlannedStep::SetBlockSize { device, block_size } => PlannedStep::SetBlockSize {
                device: device.clone(),
                block_size: *block_size,
            },
            PlannedStep::LvmActivate { vg_name } => PlannedStep::LvmActivate {
                vg_name: vg_name.clone(),
            },
            PlannedStep::LvmDeactivate { vg_name } => PlannedStep::LvmDeactivate {
                vg_name: vg_name.clone(),
            },
            PlannedStep::MountXfs { device, mountpoint } => PlannedStep::MountXfs {
                device: device.clone(),
                mountpoint: mountpoint.clone(),
            },
            PlannedStep::WriteSentinel { mountpoint, volume_uuid } => PlannedStep::WriteSentinel {
                mountpoint: mountpoint.clone(),
                volume_uuid: volume_uuid.clone(),
            },
            PlannedStep::VerifyMountIdentity { mountpoint, volume_uuid, fs_uuid, nbd_device } =>
            PlannedStep::VerifyMountIdentity {
                mountpoint: mountpoint.clone(),
                volume_uuid: volume_uuid.clone(),
                fs_uuid: clone_optional(fs_uuid),
                nbd_device: nbd_device.clone(),
            },
            PlannedStep::Umount { mountpoint } => PlannedStep::Umount {
                mountpoint: mountpoint.clone(),
            },
            PlannedStep::NbdDisconnect { device } => PlannedStep::NbdDisconnect {
                device: device.clone(),
            },
            PlannedStep::LvExtend { vg_name, lv_name, add_bytes } => PlannedStep::LvExtend {
                vg_name: vg_name.clone(),
                lv_name: lv_name.clone(),
                add_bytes: *add_bytes,
            },
            PlannedStep::XfsGrowfs { mountpoint } => PlannedStep::XfsGrowfs {
                mountpoint: mountpoint.clone(),
            },
        }
    }
}

/// The short name of a step.
pub open spec fn step_kind(step: Step) -> Seq<char> {
    match step {
        Step::ModprobeNbd => "modprobe-nbd"@,
        Step::NbdConnect { .. } => "nbd-connect"@,
        Step::SetBlockSize { .. } => "set-block-size"@,
        Step::LvmActivate { .. } => "lvm-activate"@,
        Step::LvmDeactivate { .. } => "lvm-deactivate"@,
        Step::MountXfs { .. } => "mount-xfs"@,
        Step::WriteSentinel { .. } => "write-sentinel"@,
        Step::VerifyMountIdentity { .. } => "verify-mount-identity"@,
        Step::Umount { .. } => "umount"@,
        Step::NbdDisconnect { .. } => "nbd-disconnect"@,
        Step::LvExtend { .. } => "lvextend"@,
        Step::XfsGrowfs { .. } => "xfs-growfs"@,
    }
}

/// The NBD device that a step names, if it names one.
pub open spec fn step_device(step: Step) -> Option<Seq<char>> {
    match step {
        Step::NbdConnect { device, .. } => Some(device),
        Step::SetBlockSize { device, .. } => Some(device),
        Step::NbdDisconnect { device } => Some(device),
        Step::VerifyMountIdentity { nbd_device, .. } => Some(nbd_device),
        _ => None,
    }
}

/// The step still waits for a device to be allocated.
pub open spec fn step_is_open(step: Step) -> bool {
    step_device(step) == Some(AUTO_NBD_DEVICE@)
}

/// The step with `device` in place of the placeholder.
pub open spec fn step_bound(step: Step, device: Seq<char>) -> Step {
    if !step_is_open(step) {
        step
    } else {
        match step {
            Step::NbdConnect { socket, block_size, .. } => Step::NbdConnect {
                socket,
                device,
                block_size,
            },
            Step::SetBlockSize { block_size, .. } => Step::SetBlockSize { device, block_size },
            Step::NbdDisconnect { .. } => Step::NbdDisconnect { device },
            Step::VerifyMountIdentity { mountpoint, volume_uuid, fs_uuid, .. } =>
            Step::VerifyMountIdentity { mountpoint, volume_uuid, fs_uuid, nbd_device: device },
            _ => step,
        }
    }
}

/// The rendered form of a step: the command line, or a sentence where no
/// single command runs.
pub open spec fn step_text(step: Step) -> Seq<char> {
    match step {
        Step::ModprobeNbd => "modprobe nbd"@,
        Step::NbdConnect { socket, device, block_size } => "nbd-client -unix "@ + socket + " "@
            + device + " -b "@ + crate::text::decimal(block_size as nat),
        Step::SetBlockSize { device, block_size } => "blockdev --setbsz "@ + crate::text::decimal(
            block_size as nat,
        ) + " "@ + device,
        Step::LvmActivate { vg_name } => "vgchange -ay "@ + vg_name
            + " (only after preflight, by the verified VG UUID and on exactly its devices)"@,
        Step::LvmDeactivate { vg_name } => "vgchange -an "@ + vg_name,
        Step::MountXfs { device, mountpoint } => "mount -t xfs -o noatime "@ + device + " "@
            + mountpoint,
        Step::WriteSentinel { mountpoint, volume_uuid } => "write sentinel "@ + mountpoint + "/"@
            + SENTINEL_FILE@ + " = "@ + volume_uuid + " (only if absent)"@,
        Step::VerifyMountIdentity { mountpoint, volume_uuid, fs_uuid, nbd_device } =>
        "verify mount identity at "@ + mountpoint + " (volume "@ + volume_uuid + ", fs uuid "@ + (
        match fs_uuid {
            Some(uuid) => uuid,
            None => "unpinned"@,
        }) + ", nbd "@ + nbd_device + ")"@,
        Step::Umount { mountpoint } => "umount "@ + mountpoint,
        Step::NbdDisconnect { device } => "nbd-client -d "@ + device,
        Step::LvExtend { vg_name, lv_name, add_bytes } => "lvextend -L +"@ + crate::text::decimal(
            add_bytes as nat,
        ) + "b "@ + vg_name + "/"@ + lv_name,
        Step::XfsGrowfs { mountpoint } => "xfs_growfs "@ + mountpoint,
    }
}

impl PlannedStep {
    pub fn kind(&self) -> (r: &'static str)
        ensures
            r@ == step_kind(self@),
    {
        match self {
            PlannedStep::ModprobeNbd => "modprobe-nbd",
            PlannedStep::NbdConnect { .. } => "nbd-connect",
            PlannedStep::SetBlockSize { .. } => "set-block-size",
            PlannedStep::LvmActivate { .. } => "lvm-activate",
            PlannedStep::LvmDeactivate { .. } => "lvm-deactivate",
            PlannedStep::MountXfs { .. } => "mount-xfs",
            PlannedStep::WriteSentinel { .. } => "write-sentinel",
            PlannedStep::VerifyMountIdentity { .. } => "verify-mount-identity",
            PlannedStep::Umount { .. } => "umount",
            PlannedStep::NbdDisconnect { .. } => "nbd-disconnect",
            PlannedStep::LvExtend { .. } => "lvextend",
            PlannedStep::XfsGrowfs { .. } => "xfs-growfs",
        }
    }

    /// The NBD device that the step names.
    pub fn device(&self) -> (r: Option<&str>)
        ensures
            r is Some <==> step_device(self@) is Some,
            r matches Some(d) ==> step_device(self@) == Some(d@),
    {
        match self {
            PlannedStep::NbdConnect { device, .. } => Some(device.as_str()),
            PlannedStep::SetBlockSize { device, .. } => Some(device.as_str()),
            PlannedStep::NbdDisconnect { device } => Some(device.as_str()),
            PlannedStep::VerifyMountIdentity { nbd_device, .. } => Some(nbd_device.as_str()),
            _ => None,
        }
    }

    fn is_open(&self) -> (r: bool)
        ensures
            r == step_is_open(self@),
    {
        match self.device() {
            Some(device) => same(device, AUTO_NBD_DEVICE),
            None => false,
        }
    }

    /// The step with the allocated device in place of the placeholder.
    pub fn bound(&self, device: &str) -> (r: PlannedStep)
        ensures
            r@ == step_bound(self@, device@),
    {
        if !self.is_open() {
            return self.clone();
        }
        match self {
            PlannedStep::NbdConnect { socket, block_size, .. } => PlannedStep::NbdConnect {
                socket: socket.clone(),
                device: device.to_owned(),
                block_size: *block_size,
            },
            PlannedStep::SetBlockSize { block_size, .. } => PlannedStep::SetBlockSize {
                device: device.to_owned(),
                block_size: *block_size,
            },
            PlannedStep::NbdDisconnect { .. } => PlannedStep::NbdDisconnect {
                device: device.to_owned(),
            },
            PlannedStep::VerifyMountIdentity { mountpoint, volume_uuid, fs_uuid, .. } =>
            PlannedStep::VerifyMountIdentity {
                mountpoint: mountpoint.clone(),
                volume_uuid: volume_uuid.clone(),
                fs_uuid: clone_optional(fs_uuid),
                nbd_device: device.to_owned(),
            },
            other => other.clone(),
        }
    }

    /// The rendered step.
    pub fn to_string(&self) -> (r: String)
        ensures
            r@ == step_text(self@),
    {
        match self {
            PlannedStep::ModprobeNbd => "modprobe nbd".to_owned(),
            PlannedStep::NbdConnect { socket, device, block_size } => {
                let mut out = join5(
                    "nbd-client -unix ",
                    socket.as_str(),
                    " ",
                    device.as_str(),
                    " -b ",
                );
                out.append(show(*block_size as u64).as_str());
                out
            },
            PlannedStep::SetBlockSize { device, block_size } => {
                let mut out = join3("blockdev --setbsz ", show(*block_size as u64).as_str(), " ");
                out.append(device.as_str());
                out
            },
            PlannedStep::LvmActivate { vg_name } => join3(
                "vgchange -ay ",
                vg_name.as_str(),
                " (only after preflight, by the verified VG UUID and on exactly its devices)",
            ),
            PlannedStep::LvmDeactivate { vg_name } => join2("vgchange -an ", vg_name.as_str()),
            PlannedStep::MountXfs { device, mountpoint } => {
                let mut out = join3("mount -t xfs -o noatime ", device.as_str(), " ");
                out.append(mountpoint.as_str());
                out
            },
            PlannedStep::WriteSentinel { mountpoint, volume_uuid } => {
                let mut out = join5(
                    "write sentinel ",
                    mountpoint.as_str(),
                    "/",
                    SENTINEL_FILE,
                    " = ",
                );
                out.append(volume_uuid.as_str());
                out.append(" (only if absent)");
                out
            },
            PlannedStep::VerifyMountIdentity { mountpoint, volume_uuid, fs_uuid, nbd_device } => {
                let mut out = join5(
                    "verify mount identity at ",
                    mountpoint.as_str(),
                    " (volume ",
                    volume_uuid.as_str(),
                    ", fs uuid ",
                );
                match fs_uuid {
                    Some(uuid) => out.append(uuid.as_str()),
                    None => out.append("unpinned"),
                }
                out.append(", nbd ");
                out.append(nbd_device.as_str());
                out.append(")");
                out
            },
            PlannedStep::Umount { mountpoint } => join2("umount ", mountpoint.as_str()),
            PlannedStep::NbdDisconnect { device } => join2("nbd-client -d ", device.as_str()),
            PlannedStep::LvExtend { vg_name, lv_name, add_bytes } => {
                let mut out = join5(
                    "lvextend -L +",
                    show(*add_bytes).as_str(),
                    "b ",
                    vg_name.as_str(),
                    "/",
                );
                out.append(lv_name.as_str());
                out
            },
            PlannedStep::XfsGrowfs { mountpoint } => join2("xfs_growfs ", mountpoint.as_str()),
        }
    }
}

/// A described sequence of steps for one volume.
#[derive(Debug)]
pub struct Plan {
    pub description: String,
    pub volume: String,
    /// The attachment that the plan is about, where the request names it.
    pub attachment: Option<AttachmentIdentity>,
    pub steps: Vec<PlannedStep>,
}

/// The texts of a list of steps.
pub open spec fn steps_view(steps: Seq<PlannedStep>) -> Seq<Step> {
    steps.map_values(|s: PlannedStep| s@)
}

/// The steps with `device` in place of every placeholder.
pub open spec fn steps_bound(steps: Seq<Step>, device: Seq<char>) -> Seq<Step> {
    steps.map_values(|s: Step| step_bound(s, device))
}

/// Some step waits for a device to be allocated.
pub open spec fn steps_open(steps: Seq<Step>) -> bool {
    exists|i: int| 0 <= i < steps.len() && step_is_open(#[trigger] steps[i])
}

/// The numbered lines of the first `n` steps.
pub open spec fn numbered(steps: Seq<Step>, n: nat) -> Seq<char>
    decreases n,
{
    if n == 0 {
        Seq::empty()
    } else {
        numbered(steps, (n - 1) as nat) + crate::text::decimal(n) + ". "@ + step_text(steps[n - 1])
            + "\n"@
    }
}

impl Clone for Plan {
    fn clone(&self) -> (res: Self)
        ensures
            res.description == self.description,
            res.volume == self.volume,
            res.attachment == self.attachment,
            res.steps@ == self.steps@,
    {
        let attachment = match &self.attachment {
            Some(a) => Some(a.clone()),
            None => None,
        };
        let mut steps: Vec<PlannedStep> = Vec::new();
        let mut i: usize = 0;
        while i < self.steps.len()
            invariant
                i <= self.steps.len(),
                steps@ == self.steps@.take(i as int),
            decreases self.steps.len() - i,
        {
            steps.push(self.steps[i].clone());
            i += 1;
        }
        assert(steps@ =~= self.steps@);
        Plan {
            description: self.description.clone(),
            volume: self.volume.clone(),
            attachment,
            steps,
        }
    }
}

impl Plan {
    /// The texts of the steps.
    pub open spec fn view_steps(&self) -> Seq<Step> {
        steps_view(self.steps@)
    }

    /// True if any step still refers to [`AUTO_NBD_DEVICE`].
    pub fn needs_device_allocation(&self) -> (r: bool)
        ensures
            r == steps_open(self.view_steps()),
    {
        let mut i: usize = 0;
        while i < self.steps.len()
            invariant
                i <= self.steps.len(),
                forall|k: int| 0 <= k < i ==> !step_is_open(#[trigger] self.view_steps()[k]),
            decreases self.steps.len() - i,
        {
            assert(self.view_steps()[i as int] == self.steps@[i as int]@);
            if self.steps[i].is_open() {
                return true;
            }
            i += 1;
        }
        false
    }

    /// Bind an allocated device into every placeholder.
    pub fn bind_device(&mut self, device: &str)
        ensures
            final(self).view_steps() == steps_bound(old(self).view_steps(), device@),
            final(self).description == old(self).description,
            final(self).volume == old(self).volume,
            final(self).attachment == old(self).attachment,
    {
        let mut steps: Vec<PlannedStep> = Vec::new();
        let mut i: usize = 0;
        while i < self.steps.len()
            invariant
                i <= self.steps.len(),
                steps.len() == i,
                *self == *old(self),
                forall|k: int|
                    0 <= k < i ==> #[trigger] steps@[k]@ == step_bound(self.steps@[k]@, device@),
            decreases self.steps.len() - i,
        {
            steps.push(self.steps[i].bound(device));
            i += 1;
        }
        assert(steps_view(steps@) =~= steps_bound(self.view_steps(), device@));
        self.steps = steps;
    }

    /// The rendered plan: a heading, then one numbered line per step.
    pub fn to_string(&self) -> (r: String)
        ensures
            r@ == "# "@ + self.description@ + "\n"@ + numbered(
                self.view_steps(),
                self.steps@.len(),
            ),
    {
        let mut out = join3("# ", self.description.as_str(), "\n");
        let ghost head = out@;
        let mut i: usize = 0;
        assert(out@ =~= head + numbered(self.view_steps(), 0));
        while i < self.steps.len()
            invariant
                i <= self.steps.len(),
                head == "# "@ + self.description@ + "\n"@,
                out@ == head + numbered(self.view_steps(), i as nat),
            decreases self.steps.len() - i,
        {
            let ghost before = out@;
            out.append(show(i as u64 + 1).as_str());
            out.append(". ");
            out.append(self.steps[i].to_string().as_str());
            out.append("\n");
            assert(self.view_steps()[i as int] == self.steps@[i as int]@);
            assert(out@ =~= head + numbered(self.view_steps(), (i + 1) as nat));
            i += 1;
        }
        out
    }
}

/// `/run/maki-attach/<volume>.nbd`.
pub fn bound_device_record_path(volume: &str) -> (r: String)
    ensures
        r@ == BOUND_DEVICE_RECORD_DIR@ + "/"@ + volume@ + ".nbd"@,
{
    let mut out = join3(BOUND_DEVICE_RECORD_DIR, "/", volume);
    out.append(".nbd");
    out
}

/// The steps of an attach: module, connection, block size, activation, mount,
/// sentinel where it may be initialised, and the final identity check.
pub open spec fn attach_steps(request: AttachRequest) -> Seq<Step> {
    let setup = seq![
        Step::ModprobeNbd,
        Step::NbdConnect {
            socket: request.nbd_socket@,
            device: request.nbd_device@,
            block_size: request.device_block_size,
        },
        Step::SetBlockSize {
            device: request.nbd_device@,
            block_size: request.device_block_size,
        },
        Step::LvmActivate { vg_name: request.vg_name@ },
        Step::MountXfs {
            device: "/dev/"@ + request.vg_name@ + "/"@ + request.lv_name@,
            mountpoint: request.mountpoint@,
        },
    ];
    let sentinel = if request.init_sentinel {
        seq![
            Step::WriteSentinel {
                mountpoint: request.mountpoint@,
                volume_uuid: request.volume_uuid@,
            },
        ]
    } else {
        Seq::empty()
    };
    setup + sentinel + seq![
        Step::VerifyMountIdentity {
            mountpoint: request.mountpoint@,
            volume_uuid: request.volume_uuid@,
            fs_uuid: crate::text::optional(request.fs_uuid),
            nbd_device: request.nbd_device@,
        },
    ]
}

/// The steps of a detach.
pub open spec fn detach_steps(request: AttachRequest) -> Seq<Step> {
    seq![
        Step::Umount { mountpoint: request.mountpoint@ },
        Step::LvmDeactivate { vg_name: request.vg_name@ },
        Step::NbdDisconnect { device: request.nbd_device@ },
    ]
}

/// The steps of an online growth.
pub open spec fn grow_steps(request: GrowRequest) -> Seq<Step> {
    seq![
        Step::LvExtend {
            vg_name: request.vg_name@,
            lv_name: request.lv_name@,
            add_bytes: request.add_bytes,
        },
        Step::XfsGrowfs { mountpoint: request.mountpoint@ },
    ]
}

pub fn plan_attach(request: &AttachRequest) -> (r: Plan)
    ensures
        r.description@ == "attach volume "@ + request.volume@,
        r.volume@ == request.volume@,
        r.attachment matches Some(a) && a@ == identity_of(*request),
        r.view_steps() == attach_steps(*request),
{
    let mut device = join3("/dev/", request.vg_name.as_str(), "/");
    device.append(request.lv_name.as_str());
    let mut steps: Vec<PlannedStep> = Vec::new();
    steps.push(PlannedStep::ModprobeNbd);
    steps.push(
        PlannedStep::NbdConnect {
            socket: request.nbd_socket.clone(),
            device: request.nbd_device.clone(),
            block_size: request.device_block_size,
        },
    );
    steps.push(
        PlannedStep::SetBlockSize {
            device: request.nbd_device.clone(),
            block_size: request.device_block_size,
        },
    );
    steps.push(PlannedStep::LvmActivate { vg_name: request.vg_name.clone() });
    steps.push(PlannedStep::MountXfs { device, mountpoint: request.mountpoint.clone() });
    if request.init_sentinel {
        steps.push(
            PlannedStep::WriteSentinel {
                mountpoint: request.mountpoint.clone(),
                volume_uuid: request.volume_uuid.clone(),
            },
        );
    }
    steps.push(
        PlannedStep::VerifyMountIdentity {
            mountpoint: request.mountpoint.clone(),
            volume_uuid: request.volume_uuid.clone(),
            fs_uuid: clone_optional(&request.fs_uuid),
            nbd_device: request.nbd_device.clone(),
        },
    );
    assert(steps_view(steps@) =~= attach_steps(*request));
    Plan {
        description: join2("attach volume ", request.volume.as_str()),
        volume: request.volume.clone(),
        attachment: Some(AttachmentIdentity::of_request(request)),
        steps,
    }
}

pub fn plan_detach(request: &AttachRequest) -> (r: Plan)
    ensures
        r.description@ == "detach volume "@ + request.volume@,
        r.volume@ == request.volume@,
        r.attachment matches Some(a) && a@ == identity_of(*request),
        r.view_steps() == detach_steps(*request),
{
    let mut steps: Vec<PlannedStep> = Vec::new();
    steps.push(PlannedStep::Umount { mountpoint: request.mountpoint.clone() });
    steps.push(PlannedStep::LvmDeactivate { vg_name: request.vg_name.clone() });
    steps.push(PlannedStep::NbdDisconnect { device: request.nbd_device.clone() });
    assert(steps_view(steps@) =~= detach_steps(*request));
    Plan {
        description: join2("detach volume ", request.volume.as_str()),
        volume: request.volume.clone(),
        attachment: Some(AttachmentIdentity::of_request(request)),
        steps,
    }
}

/// Online growth: `lvextend` then `xfs_growfs`; no NBD resize.
pub fn plan_grow(request: &GrowRequest) -> (r: Plan)
    ensures
        r.description@ == "grow volume "@ + request.volume@,
        r.volume@ == request.volume@,
        r.attachment is None,
        r.view_steps() == grow_steps(*request),
{
    let mut steps: Vec<PlannedStep> = Vec::new();
    steps.push(
        PlannedStep::LvExtend {
            vg_name: request.vg_name.clone(),
            lv_name: request.lv_name.clone(),
            add_bytes: request.add_bytes,
        },
    );
    steps.push(PlannedStep::XfsGrowfs { mountpoint: request.mountpoint.clone() });
    assert(steps_view(steps@) =~= grow_steps(*request));
    Plan {
        description: join2("grow volume ", request.volume.as_str()),
        volume: request.volume.clone(),
        attachment: None,
        steps,
    }
}

/// The step that takes back what `step` did, if its effect outlives a failure.
pub open spec fn undo(step: Step) -> Option<Step> {
    match step {
        Step::MountXfs { mountpoint, .. } => Some(Step::Umount { mountpoint }),
        Step::LvmActivate { vg_name } => Some(Step::LvmDeactivate { vg_name }),
        Step::NbdConnect { device, .. } => Some(Step::NbdDisconnect { device }),
        _ => None,
    }
}

/// The compensating steps of an executed prefix, newest first.
pub open spec fn rollback(executed: Seq<Step>) -> Seq<Step>
    decreases executed.len(),
{
    if executed.len() == 0 {
        Seq::empty()
    } else {
        let older = rollback(executed.drop_last());
        match undo(executed.last()) {
            Some(step) => seq![step] + older,
            None => older,
        }
    }
}

pub(crate) fn undo_step(step: &PlannedStep) -> (r: Option<PlannedStep>)
    ensures
        r is Some <==> undo(step@) is Some,
        r matches Some(u) ==> undo(step@) == Some(u@),
{
    match step {
        PlannedStep::MountXfs { mountpoint, .. } => Some(
            PlannedStep::Umount { mountpoint: mountpoint.clone() },
        ),
        PlannedStep::LvmActivate { vg_name } => Some(
            PlannedStep::LvmDeactivate { vg_name: vg_name.clone() },
        ),
        PlannedStep::NbdConnect { device, .. } => Some(
            PlannedStep::NbdDisconnect { device: device.clone() },
        ),
        _ => None,
    }
}

/// Compensating steps for an already executed prefix, newest first: a mount is
/// unmounted, an activated VG deactivated, a connected NBD device disconnected.
/// Steps without effects that outlive a failure have none.
pub fn rollback_steps(executed: &[PlannedStep]) -> (r: Vec<PlannedStep>)
    ensures
        steps_view(r@) == rollback(steps_view(executed@)),
{
    let mut out: Vec<PlannedStep> = Vec::new();
    let ghost all = steps_view(executed@);
    let mut i: usize = executed.len();
    assert(all.take(i as int) =~= all);
    assert(steps_view(out@) + rollback(all.take(i as int)) =~= rollback(all));
    while i > 0
        invariant
            i <= executed.len(),
            all == steps_view(executed@),
            steps_view(out@) + rollback(all.take(i as int)) == rollback(all),
        decreases i,
    {
        let ghost before = out@;
        i -= 1;
        proof {
            assert(all.take(i + 1).drop_last() =~= all.take(i as int));
            assert(all.take(i + 1).last() == executed@[i as int]@);
        }
        match undo_step(&executed[i]) {
            Some(step) => {
                out.push(step);
                proof {
                    assert(steps_view(out@) =~= steps_view(before).push(step@));
                    assert(steps_view(out@) + rollback(all.take(i as int)) =~= steps_view(before)
                        + (seq![step@] + rollback(all.take(i as int))));
                }
            },
            None => {},
        }
    }
    assert(steps_view(out@) =~= steps_view(out@) + rollback(all.take(0)));
    out
}

// ---------- laws ----------

/// A detach runs exactly the compensating steps of a completed attach.
pub proof fn detach_undoes_attach(request: AttachRequest)
    ensures
        rollback(attach_steps(request)) == detach_steps(request),
{
    let all = attach_steps(request);
    let n = all.len() as int;
    reveal_with_fuel(rollback, 8);
    assert(all.drop_last() =~= all.take(n - 1));
    let setup = attach_steps(request).take(5);
    if request.init_sentinel {
        assert(all.drop_last().drop_last() =~= setup);
    } else {
        assert(all.drop_last() =~= setup);
    }
    assert(rollback(all) == rollback(setup));
    assert(setup.drop_last().drop_last().drop_last().drop_last().drop_last() =~= Seq::<
        Step,
    >::empty());
    assert(rollback(setup) =~= detach_steps(request));
}

/// The compensations of a longer prefix end with those of a shorter one, so
/// that what came first is always taken back last.
pub proof fn rollback_keeps_order(executed: Seq<Step>, n: int)
    requires
        0 <= n <= executed.len(),
    ensures
        exists|newer: Seq<Step>| rollback(executed) == #[trigger] (newer + rollback(executed.take(n))),
    decreases executed.len() - n,
{
    if n == executed.len() {
        assert(executed.take(n) =~= executed);
        assert(rollback(executed) =~= Seq::<Step>::empty() + rollback(executed.take(n)));
    } else {
        rollback_keeps_order(executed, n + 1);
        let newer = choose|newer: Seq<Step>|
            rollback(executed) == #[trigger] (newer + rollback(executed.take(n + 1)));
        assert(executed.take(n + 1).drop_last() =~= executed.take(n));
        match undo(executed[n]) {
            Some(step) => {
                assert(rollback(executed) =~= newer.push(step) + rollback(executed.take(n)));
            },
            None => {
                assert(rollback(executed) == newer + rollback(executed.take(n)));
            },
        }
    }
}

/// Binding a concrete device leaves nothing to allocate.
pub proof fn binding_closes_the_plan(steps: Seq<Step>, device: Seq<char>)
    requires
        device != AUTO_NBD_DEVICE@,
    ensures
        !steps_open(steps_bound(steps, device)),
{
    let bound = steps_bound(steps, device);
    assert forall|i: int| 0 <= i < bound.len() implies !step_is_open(#[trigger] bound[i]) by {
        assert(bound[i] == step_bound(steps[i], device));
    }
}

/// Binding changes only steps that waited for a device.
pub proof fn binding_leaves_pinned_steps(steps: Seq<Step>, device: Seq<char>)
    requires
        !steps_open(steps),
    ensures
        steps_bound(steps, device) == steps,
{
    assert forall|i: int| 0 <= i < steps.len() implies step_bound(steps[i], device) == steps[i] by {
        assert(!step_is_open(steps[i]));
    }
    assert(steps_bound(steps, device) =~= steps);
}

/// An attach loads the module, connects the volume's socket to the device, sets
/// its block size, activates the group, mounts the logical volume at the
/// mountpoint, writes the sentinel where that is asked for, and verifies what it
/// mounted.
pub proof fn an_attach_does_these_steps(request: AttachRequest)
    ensures
        ({
            let steps = attach_steps(request);
            let last = steps.len() - 1;
            &&& steps.len() == if request.init_sentinel {
                7int
            } else {
                6
            }
            &&& steps[0] is ModprobeNbd
            &&& steps[1] == Step::NbdConnect {
                socket: request.nbd_socket@,
                device: request.nbd_device@,
                block_size: request.device_block_size,
            }
            &&& steps[2] == Step::SetBlockSize {
                device: request.nbd_device@,
                block_size: request.device_block_size,
            }
            &&& steps[3] == Step::LvmActivate { vg_name: request.vg_name@ }
            &&& steps[4] == Step::MountXfs {
                device: "/dev/"@ + request.vg_name@ + "/"@ + request.lv_name@,
                mountpoint: request.mountpoint@,
            }
            &&& request.init_sentinel ==> steps[5] == Step::WriteSentinel {
                mountpoint: request.mountpoint@,
                volume_uuid: request.volume_uuid@,
            }
            &&& steps[last] == Step::VerifyMountIdentity {
                mountpoint: request.mountpoint@,
                volume_uuid: request.volume_uuid@,
                fs_uuid: crate::text::optional(request.fs_uuid),
                nbd_device: request.nbd_device@,
            }
        }),
{
}

/// A detach unmounts, deactivates and disconnects what the attach of the same
/// request mounted, activated and connected, in that order.
pub proof fn a_detach_names_what_was_attached(request: AttachRequest)
    ensures
        ({
            let up = attach_steps(request);
            let down = detach_steps(request);
            &&& down.len() == 3
            &&& down[0] matches Step::Umount { mountpoint } && (up[4] matches Step::MountXfs {
                mountpoint: m,
                ..
            } && m == mountpoint)
            &&& down[1] matches Step::LvmDeactivate { vg_name } && (
            up[3] matches Step::LvmActivate { vg_name: v } && v == vg_name)
            &&& down[2] matches Step::NbdDisconnect { device } && (
            up[1] matches Step::NbdConnect { device: d, .. } && d == device)
        }),
{
}

/// A growth extends the logical volume that an attach of the same names mounts,
/// and then the filesystem at its mountpoint.
pub proof fn a_growth_enlarges_what_was_attached(request: AttachRequest, growth: GrowRequest)
    requires
        growth.vg_name@ == request.vg_name@,
        growth.lv_name@ == request.lv_name@,
        growth.mountpoint@ == request.mountpoint@,
    ensures
        ({
            let up = attach_steps(request);
            let steps = grow_steps(growth);
            &&& steps.len() == 2
            &&& steps[0] matches Step::LvExtend { vg_name, lv_name, add_bytes } && add_bytes
                == growth.add_bytes && (up[4] matches Step::MountXfs { device, .. } && device
                == "/dev/"@ + vg_name + "/"@ + lv_name)
            &&& steps[1] matches Step::XfsGrowfs { mountpoint } && (
            up[4] matches Step::MountXfs { mountpoint: m, .. } && m == mountpoint)
        }),
{
}

/// What is taken back is exactly what was put up: a mount, an active group, a
/// connected device.
pub proof fn compensations_name_what_was_done(
    socket: Seq<char>,
    device: Seq<char>,
    block_size: u32,
    vg_name: Seq<char>,
    source: Seq<char>,
    mountpoint: Seq<char>,
)
    ensures
        rollback(
            seq![
                Step::NbdConnect { socket, device, block_size },
                Step::SetBlockSize { device, block_size },
                Step::LvmActivate { vg_name },
                Step::MountXfs { device: source, mountpoint },
            ],
        ) == seq![
            Step::Umount { mountpoint },
            Step::LvmDeactivate { vg_name },
            Step::NbdDisconnect { device },
        ],
{
    let done = seq![
        Step::NbdConnect { socket, device, block_size },
        Step::SetBlockSize { device, block_size },
        Step::LvmActivate { vg_name },
        Step::MountXfs { device: source, mountpoint },
    ];
    reveal_with_fuel(rollback, 6);
    assert(done.drop_last().drop_last().drop_last().drop_last() =~= Seq::<Step>::empty());
    assert(rollback(done) =~= seq![
        Step::Umount { mountpoint },
        Step::LvmDeactivate { vg_name },
        Step::NbdDisconnect { device },
    ]);
}

/// The steps that wait for a device get the one that was chosen, and it is the
/// only thing that changes in them: an allocated attach is the attach of a
/// request that had named the device.
pub proof fn an_allocated_attach_is_one_of_that_device(
    open: AttachRequest,
    pinned: AttachRequest,
    device: Seq<char>,
)
    requires
        open.nbd_device@ == AUTO_NBD_DEVICE@,
        pinned.nbd_device@ == device,
        open.nbd_socket@ == pinned.nbd_socket@,
        open.device_block_size == pinned.device_block_size,
        open.vg_name@ == pinned.vg_name@,
        open.lv_name@ == pinned.lv_name@,
        open.mountpoint@ == pinned.mountpoint@,
        open.volume_uuid@ == pinned.volume_uuid@,
        crate::text::optional(open.fs_uuid) == crate::text::optional(pinned.fs_uuid),
        open.init_sentinel == pinned.init_sentinel,
    ensures
        steps_open(attach_steps(open)),
        steps_bound(attach_steps(open), device) == attach_steps(pinned),
        steps_bound(detach_steps(open), device) == detach_steps(pinned),
{
    let steps = attach_steps(open);
    assert(step_is_open(steps[1]));
    assert(steps_bound(steps, device) =~= attach_steps(pinned));
    assert(steps_bound(detach_steps(open), device) =~= detach_steps(pinned));
}

/// The name of a step tells what kind of step it is.
pub proof fn step_names_tell_their_kind(step: Step)
    ensures
        step is ModprobeNbd ==> step_kind(step) == "modprobe-nbd"@,
        step is NbdConnect ==> step_kind(step) == "nbd-connect"@,
        step is SetBlockSize ==> step_kind(step) == "set-block-size"@,
        step is LvmActivate ==> step_kind(step) == "lvm-activate"@,
        step is LvmDeactivate ==> step_kind(step) == "lvm-deactivate"@,
        step is MountXfs ==> step_kind(step) == "mount-xfs"@,
        step is WriteSentinel ==> step_kind(step) == "write-sentinel"@,
        step is VerifyMountIdentity ==> step_kind(step) == "verify-mount-identity"@,
        step is Umount ==> step_kind(step) == "umount"@,
        step is NbdDisconnect ==> step_kind(step) == "nbd-disconnect"@,
        step is LvExtend ==> step_kind(step) == "lvextend"@,
        step is XfsGrowfs ==> step_kind(step) == "xfs-growfs"@,
{
}

/// An attachment is identified by the volume, the socket and the names that the
/// request gives, and by nothing else of it.
pub proof fn attachments_are_identified_by_their_names(a: AttachRequest, b: AttachRequest)
    ensures
        identity_of(a) == identity_of(b) <==> {
            &&& a.volume_uuid@ == b.volume_uuid@
            &&& a.nbd_socket@ == b.nbd_socket@
            &&& a.mountpoint@ == b.mountpoint@
            &&& a.vg_name@ == b.vg_name@
            &&& a.lv_name@ == b.lv_name@
        },
{
}

proof fn lemma_one_more_line(ls: Seq<Seq<char>>, line: Seq<char>)
    ensures
        crate::text::fed(ls.push(line)) == crate::text::fed(ls) + line + seq!['\n'],
    decreases ls.len(),
{
    let all = ls.push(line);
    if ls.len() == 0 {
        assert(all.drop_first() =~= Seq::<Seq<char>>::empty());
        assert(crate::text::fed(all.drop_first()) =~= Seq::<char>::empty());
        assert(crate::text::fed(all) =~= crate::text::fed(ls) + line + seq!['\n']);
    } else {
        lemma_one_more_line(ls.drop_first(), line);
        assert(all.drop_first() =~= ls.drop_first().push(line));
        assert(crate::text::fed(all) =~= crate::text::fed(ls) + line + seq!['\n']);
    }
}

/// A plan is listed one step per line, each behind its number, from one on.
pub proof fn plans_are_listed_line_by_line(steps: Seq<Step>, n: nat)
    requires
        n <= steps.len(),
    ensures
        numbered(steps, n) == crate::text::fed(
            Seq::new(
                n,
                |i: int| crate::text::decimal((i + 1) as nat) + ". "@ + step_text(steps[i]),
            ),
        ),
    decreases n,
{
    let f = |i: int| crate::text::decimal((i + 1) as nat) + ". "@ + step_text(steps[i]);
    let lines = Seq::new(n, f);
    if n == 0 {
        assert(numbered(steps, n) =~= crate::text::fed(lines));
    } else {
        let m = (n - 1) as nat;
        plans_are_listed_line_by_line(steps, m);
        reveal_strlit("\n");
        assert("\n"@ =~= seq!['\n']);
        let front = Seq::new(m, f);
        lemma_one_more_line(front, f(m as int));
        assert(lines =~= front.push(f(m as int)));
        assert(numbered(steps, n) =~= crate::text::fed(lines));
    }
}

} // verus!
