//! The read-only guard before a workload starts. It decides on observations
//! alone: nothing here allocates a device, runs a step or repairs a record.
//!
//! The guard looks three times at the backend, the mount and the backend again.
//! Between the first two looks the filesystem is probed, between the last two
//! the sentinel is read; the mount must be the same in all three.

use vstd::prelude::*;

use crate::config::check_uuid;
use crate::exec::{identity_error, ExecError, SENTINEL_MAX_BYTES};
use crate::plan::{AttachRequest, AttachmentIdentity, AUTO_NBD_DEVICE};
use crate::recover::VerifiedMount;
use crate::run::Backend;
use crate::state::BoundDeviceRecord;
use crate::text::{from_utf8, same, trim};

verus! {

broadcast use vstd::seq::group_seq_axioms;

// ---------- the sentinel on the mount ----------

/// The opened mount root must be on the verified device.
pub fn check_mount_root(root: (u32, u32), device: (u32, u32)) -> (r: Result<(), String>)
    ensures
        match r {
            Ok(()) => root == device,
            Err(m) => root != device && m@ == "opened mount root is not the verified device"@,
        },
{
    if root.0 == device.0 && root.1 == device.1 {
        Ok(())
    } else {
        Err("opened mount root is not the verified device".to_owned())
    }
}

/// The complaint about an opened sentinel.
pub open spec fn sentinel_complaint(
    device: (u32, u32),
    is_file: bool,
    len: u64,
    file_device: (u32, u32),
    content: Seq<u8>,
) -> Option<Seq<char>> {
    if !is_file || len > SENTINEL_MAX_BYTES || file_device != device {
        Some("sentinel is not a bounded regular file on the verified mount"@)
    } else if !vstd::utf8::valid_utf8(content) {
        Some("sentinel is not valid UTF-8"@)
    } else if content.len() > SENTINEL_MAX_BYTES || crate::text::trimmed(
        vstd::utf8::decode_utf8(content),
    ).len() == 0 {
        Some("sentinel is empty or exceeds its bound"@)
    } else {
        None
    }
}

/// What an opened sentinel holds: it must be a bounded regular file on the
/// verified device, and hold text.
pub fn accept_sentinel(
    device: (u32, u32),
    is_file: bool,
    len: u64,
    file_device: (u32, u32),
    content: Vec<u8>,
) -> (r: Result<String, String>)
    ensures
        ({
            let complaint = sentinel_complaint(device, is_file, len, file_device, content@);
            match r {
                Ok(value) => complaint is None && value@ == crate::text::trimmed(
                    vstd::utf8::decode_utf8(content@),
                ),
                Err(m) => complaint == Some(m@),
            }
        }),
{
    if !is_file || len > SENTINEL_MAX_BYTES || file_device.0 != device.0 || file_device.1
        != device.1 {
        return Err("sentinel is not a bounded regular file on the verified mount".to_owned());
    }
    let bytes: u64 = content.len() as u64;
    match from_utf8(content) {
        None => Err("sentinel is not valid UTF-8".to_owned()),
        Some(text) => {
            proof {
                vstd::utf8::encode_utf8_decode_utf8(text@);
            }
            let value = trim(text.as_str());
            if bytes > SENTINEL_MAX_BYTES || value.is_empty() {
                Err("sentinel is empty or exceeds its bound".to_owned())
            } else {
                Ok(value.to_owned())
            }
        },
    }
}

/// The device that a filesystem probe reads must be the mounted one.
pub fn check_probe_device(is_block: bool, number: (u32, u32), mount: &VerifiedMount) -> (r: Result<
    (),
    ExecError,
>)
    ensures
        match r {
            Ok(()) => is_block && number == mount.device,
            Err(e) => !(is_block && number == mount.device) && crate::executor::is_identity_error(
                e,
                "filesystem probe device does not match the verified mount"@,
            ),
        },
{
    if is_block && number.0 == mount.device.0 && number.1 == mount.device.1 {
        Ok(())
    } else {
        Err(identity_error("filesystem probe device does not match the verified mount"))
    }
}

// ---------- the course of the guard ----------

/// What a look at the mount came to.
#[derive(Debug, Clone, Copy, PartialEq, Eq, Structural)]
pub enum Mounted {
    /// The mount that was seen first.
    Same,
    Other,
    Failed,
}

/// What reading the sentinel came to.
#[derive(Debug, Clone, Copy, PartialEq, Eq, Structural)]
pub enum Sentinel {
    Matches,
    Differs,
    Failed,
}

/// An answer to the guard.
#[derive(Debug, Clone, Copy, PartialEq, Eq, Structural)]
pub enum Glance {
    Start,
    Backend(Backend),
    Mount(Mounted),
    Filesystem(bool),
    Sentinel(Sentinel),
    /// An answer to something else.
    Astray,
}

/// Which of the three looks it is.
#[derive(Debug, Clone, Copy, PartialEq, Eq, Structural)]
pub enum Look {
    First,
    Second,
    Third,
}

/// Where the guard stands: which answer it waits for.
#[derive(Debug, Clone, Copy, PartialEq, Eq, Structural)]
pub enum Post {
    Ready,
    /// The backend before a look at the mount.
    Before(Look),
    Mount(Look),
    /// The backend afterwards; whether the mount is the one seen first.
    After(Look, bool),
    Filesystem,
    Sentinel,
    Over,
}

/// Why the guard holds.
#[derive(Debug, Clone, Copy, PartialEq, Eq, Structural)]
pub enum Bar {
    Reported,
    Backend,
    BackendChanged,
    ChangedDuringProbe,
    ChangedDuringRead,
    Sentinel,
}

/// What the guard asks for next.
#[derive(Debug, Clone, Copy, PartialEq, Eq, Structural)]
pub enum Ask {
    Backend,
    Mount,
    Filesystem,
    Sentinel,
    /// It is decided: it yields, or holds for a reason.
    Stop(Option<Bar>),
}

/// The guard holds.
pub open spec fn held(bar: Bar) -> (Post, Ask) {
    (Post::Over, Ask::Stop(Some(bar)))
}

/// What follows a probe of the backend.
pub open spec fn when_ours(glance: Glance, bar: Bar, next: (Post, Ask)) -> (Post, Ask) {
    match glance {
        Glance::Backend(Backend::Ours) => next,
        Glance::Backend(Backend::Absent) | Glance::Backend(Backend::Foreign) => held(bar),
        _ => held(Bar::Reported),
    }
}

/// What follows a complete look.
pub open spec fn after_look(look: Look, unchanged: bool) -> (Post, Ask) {
    match look {
        Look::First => (Post::Filesystem, Ask::Filesystem),
        Look::Second => if unchanged {
            (Post::Sentinel, Ask::Sentinel)
        } else {
            held(Bar::ChangedDuringProbe)
        },
        Look::Third => if unchanged {
            (Post::Over, Ask::Stop(None))
        } else {
            held(Bar::ChangedDuringRead)
        },
    }
}

/// What follows an answer.
pub open spec fn passed(post: Post, glance: Glance) -> (Post, Ask) {
    match post {
        Post::Ready => (Post::Before(Look::First), Ask::Backend),
        Post::Before(look) => when_ours(glance, Bar::Backend, (Post::Mount(look), Ask::Mount)),
        Post::Mount(look) => match glance {
            Glance::Mount(Mounted::Same) => (Post::After(look, true), Ask::Backend),
            Glance::Mount(Mounted::Other) => (Post::After(look, false), Ask::Backend),
            _ => held(Bar::Reported),
        },
        Post::After(look, unchanged) => when_ours(
            glance,
            Bar::BackendChanged,
            after_look(look, unchanged),
        ),
        Post::Filesystem => if glance == Glance::Filesystem(true) {
            (Post::Before(Look::Second), Ask::Backend)
        } else {
            held(Bar::Reported)
        },
        Post::Sentinel => match glance {
            Glance::Sentinel(Sentinel::Matches) => (Post::Before(Look::Third), Ask::Backend),
            Glance::Sentinel(Sentinel::Differs) => held(Bar::Sentinel),
            _ => held(Bar::Reported),
        },
        Post::Over => held(Bar::Reported),
    }
}

fn hold(bar: Bar) -> (r: (Post, Ask))
    ensures
        r == held(bar),
{
    (Post::Over, Ask::Stop(Some(bar)))
}

fn go_if_ours(glance: Glance, bar: Bar, next: (Post, Ask)) -> (r: (Post, Ask))
    ensures
        r == when_ours(glance, bar, next),
{
    match glance {
        Glance::Backend(Backend::Ours) => next,
        Glance::Backend(Backend::Absent) | Glance::Backend(Backend::Foreign) => hold(bar),
        _ => hold(Bar::Reported),
    }
}

fn leave_look(look: Look, unchanged: bool) -> (r: (Post, Ask))
    ensures
        r == after_look(look, unchanged),
{
    match look {
        Look::First => (Post::Filesystem, Ask::Filesystem),
        Look::Second => if unchanged {
            (Post::Sentinel, Ask::Sentinel)
        } else {
            hold(Bar::ChangedDuringProbe)
        },
        Look::Third => if unchanged {
            (Post::Over, Ask::Stop(None))
        } else {
            hold(Bar::ChangedDuringRead)
        },
    }
}

/// What follows an answer.
pub fn pass(post: Post, glance: Glance) -> (r: (Post, Ask))
    ensures
        r == passed(post, glance),
{
    match post {
        Post::Ready => (Post::Before(Look::First), Ask::Backend),
        Post::Before(look) => go_if_ours(glance, Bar::Backend, (Post::Mount(look), Ask::Mount)),
        Post::Mount(look) => match glance {
            Glance::Mount(Mounted::Same) => (Post::After(look, true), Ask::Backend),
            Glance::Mount(Mounted::Other) => (Post::After(look, false), Ask::Backend),
            _ => hold(Bar::Reported),
        },
        Post::After(look, unchanged) => go_if_ours(
            glance,
            Bar::BackendChanged,
            leave_look(look, unchanged),
        ),
        Post::Filesystem => match glance {
            Glance::Filesystem(true) => (Post::Before(Look::Second), Ask::Backend),
            _ => hold(Bar::Reported),
        },
        Post::Sentinel => match glance {
            Glance::Sentinel(Sentinel::Matches) => (Post::Before(Look::Third), Ask::Backend),
            Glance::Sentinel(Sentinel::Differs) => hold(Bar::Sentinel),
            _ => hold(Bar::Reported),
        },
        Post::Over => hold(Bar::Reported),
    }
}

/// Where the guard stands after its first `n` answers.
pub open spec fn post_after(glances: Seq<Glance>, n: nat) -> Post
    decreases n,
{
    if n == 0 {
        Post::Ready
    } else {
        passed(post_after(glances, (n - 1) as nat), glances[n - 1]).0
    }
}

/// What the guard asks for on its answer number `n`.
pub open spec fn ask_at(glances: Seq<Glance>, n: int) -> Ask {
    passed(post_after(glances, n as nat), glances[n]).1
}

/// The three answers before number `n` were our backend, a mount, and our
/// backend again.
pub open spec fn looked(glances: Seq<Glance>, n: int) -> bool {
    &&& n >= 3
    &&& glances[n - 2] == Glance::Backend(Backend::Ours)
    &&& glances[n - 1] == Glance::Mount(Mounted::Same) || glances[n - 1] == Glance::Mount(
        Mounted::Other,
    )
    &&& glances[n] == Glance::Backend(Backend::Ours)
}

/// The same, with the mount that was seen first.
pub open spec fn looked_again(glances: Seq<Glance>, n: int) -> bool {
    looked(glances, n) && glances[n - 1] == Glance::Mount(Mounted::Same)
}

/// The post tells how many answers there were.
proof fn lemma_post_at(glances: Seq<Glance>, n: nat)
    ensures
        match post_after(glances, n) {
            Post::Ready => n == 0,
            Post::Before(Look::First) => n == 1,
            Post::Mount(Look::First) => n == 2,
            Post::After(Look::First, _) => n == 3,
            Post::Filesystem => n == 4,
            Post::Before(Look::Second) => n == 5,
            Post::Mount(Look::Second) => n == 6,
            Post::After(Look::Second, _) => n == 7,
            Post::Sentinel => n == 8,
            Post::Before(Look::Third) => n == 9,
            Post::Mount(Look::Third) => n == 10,
            Post::After(Look::Third, _) => n == 11,
            Post::Over => true,
        },
    decreases n,
{
    if n > 0 {
        lemma_post_at(glances, (n - 1) as nat);
    }
}

/// Nothing on the volume is read before the kernel showed our backend, the
/// mount, and our backend again; the sentinel only from the mount that was seen
/// first, after the filesystem was confirmed.
pub proof fn nothing_is_read_before_the_mount_is_verified(glances: Seq<Glance>, n: int)
    requires
        0 <= n < glances.len(),
        ask_at(glances, n) == Ask::Filesystem || ask_at(glances, n) == Ask::Sentinel,
    ensures
        looked(glances, n),
        ask_at(glances, n) == Ask::Sentinel ==> n == 7 && looked_again(glances, 7)
            && glances[4] == Glance::Filesystem(true) && looked(glances, 3),
{
    lemma_post_at(glances, n as nat);
    reveal_with_fuel(post_after, 9);
}

/// The guard yields only after every check: six probes that found our backend,
/// three looks at the same mount, the confirmed filesystem and the sentinel.
pub proof fn the_guard_yields_only_after_every_check(glances: Seq<Glance>, n: int)
    requires
        0 <= n < glances.len(),
        ask_at(glances, n) == Ask::Stop(None),
    ensures
        n == 11,
        looked(glances, 3),
        glances[4] == Glance::Filesystem(true),
        looked_again(glances, 7),
        glances[8] == Glance::Sentinel(Sentinel::Matches),
        looked_again(glances, 11),
{
    lemma_post_at(glances, n as nat);
    reveal_with_fuel(post_after, 13);
}

/// And it does yield when every check is passed.
pub proof fn the_guard_yields_after_every_check(glances: Seq<Glance>)
    requires
        glances.len() == 12,
        looked(glances, 3),
        glances[4] == Glance::Filesystem(true),
        looked_again(glances, 7),
        glances[8] == Glance::Sentinel(Sentinel::Matches),
        looked_again(glances, 11),
    ensures
        ask_at(glances, 11) == Ask::Stop(None),
{
    reveal_with_fuel(post_after, 13);
}

// ---------- a guard ----------

/// What came of what the guard asked for.
pub enum Reply {
    Start,
    /// The identifier of the device's backend, or that it has none.
    Backend(Result<Option<String>, String>),
    /// The verified mount.
    Mount(Result<VerifiedMount, String>),
    /// Whether the filesystem is the pinned one.
    Filesystem(Result<(), ExecError>),
    /// What the sentinel holds.
    Sentinel(Result<String, String>),
}

/// What the guard asks for.
pub enum Question {
    /// The backend of a device.
    Backend(String),
    /// The verified mount of an attachment.
    Mount(BoundDeviceRecord),
    /// Whether the filesystem on the mount has this UUID.
    Filesystem { record: BoundDeviceRecord, mount: VerifiedMount, uuid: String },
    /// The sentinel on the mount.
    Sentinel { record: BoundDeviceRecord, mount: VerifiedMount },
    /// Nothing more; see [`WorkloadGuard::finish`].
    Stop,
}

/// The guard before one workload.
pub struct WorkloadGuard {
    pub record: BoundDeviceRecord,
    /// The filesystem UUID that the configuration pins.
    pub fs_uuid: String,
    /// The volume UUID that the sentinel must hold.
    pub volume_uuid: String,
    pub post: Post,
    /// The mount that was seen first.
    pub mount: Option<VerifiedMount>,
    /// Why the guard holds.
    pub error: Option<ExecError>,
}

/// The texts of an optional mount.
pub open spec fn mount_view(mount: Option<VerifiedMount>) -> Option<((u32, u32), Seq<char>)> {
    match mount {
        Some(m) => Some(m@),
        None => None,
    }
}

/// The complaint about a request, before any record is read.
pub open spec fn request_complaint(request: AttachRequest) -> Option<Seq<char>> {
    match request.fs_uuid {
        None => Some("verify requires configured fs_uuid"@),
        Some(uuid) => crate::config::first_complaint(
            crate::state::rule_text(
                crate::config::uuid_complaint("volume_uuid"@, request.volume_uuid@),
            ),
            crate::state::rule_text(crate::config::uuid_complaint("fs_uuid"@, uuid@)),
        ),
    }
}

/// The complaint about a request and the record of its volume.
pub open spec fn record_complaint(
    request: AttachRequest,
    found: Option<crate::state::Record>,
) -> Option<Seq<char>> {
    match found {
        None => Some("no trusted attachment to verify"@),
        Some(record) => if record.attachment != crate::plan::identity_of(request) || (
        request.nbd_device@ != AUTO_NBD_DEVICE@ && request.nbd_device@ != record.device) {
            Some("verify configuration does not match the trusted attach record"@)
        } else if record.recovery is None {
            Some("attachment has no persisted mapping proof"@)
        } else {
            None
        },
    }
}

/// Hold a request to what the guard needs.
pub fn check_request(request: &AttachRequest) -> (r: Result<(), ExecError>)
    ensures
        match r {
            Ok(()) => request_complaint(*request) is None,
            Err(e) => request_complaint(*request) is Some && crate::executor::is_identity_error(
                e,
                request_complaint(*request)->Some_0,
            ),
        },
{
    match &request.fs_uuid {
        None => Err(identity_error("verify requires configured fs_uuid")),
        Some(uuid) => {
            match check_uuid("volume_uuid", request.volume_uuid.as_str()) {
                Ok(()) => {},
                Err(e) => return Err(identity_error(e.to_string().as_str())),
            }
            match check_uuid("fs_uuid", uuid.as_str()) {
                Ok(()) => Ok(()),
                Err(e) => Err(identity_error(e.to_string().as_str())),
            }
        },
    }
}

/// The answer is one to what the guard asked for.
pub open spec fn fits(post: Post, reply: Reply) -> bool {
    match post {
        Post::Ready => reply is Start,
        Post::Before(_) | Post::After(..) => reply is Backend,
        Post::Mount(_) => reply is Mount,
        Post::Filesystem => reply is Filesystem,
        Post::Sentinel => reply is Sentinel,
        Post::Over => false,
    }
}

/// What a look at the mount is to the guard.
pub open spec fn seen(
    post: Post,
    first: Option<((u32, u32), Seq<char>)>,
    said: Result<VerifiedMount, String>,
) -> Mounted {
    match said {
        Err(_) => Mounted::Failed,
        Ok(m) => if post == Post::Mount(Look::First) || first == Some(m@) {
            Mounted::Same
        } else {
            Mounted::Other
        },
    }
}

/// What an answer is to the guard.
pub open spec fn glance_of(guard: WorkloadGuard, reply: Reply) -> Glance {
    if !fits(guard.post, reply) {
        Glance::Astray
    } else {
        match reply {
            Reply::Start => Glance::Start,
            Reply::Backend(said) => Glance::Backend(
                crate::executor::judged(Some(guard.record@), said),
            ),
            Reply::Mount(said) => Glance::Mount(seen(guard.post, mount_view(guard.mount), said)),
            Reply::Filesystem(r) => Glance::Filesystem(r is Ok),
            Reply::Sentinel(Err(_)) => Glance::Sentinel(Sentinel::Failed),
            Reply::Sentinel(Ok(value)) => Glance::Sentinel(
                if value@ == guard.volume_uuid@ {
                    Sentinel::Matches
                } else {
                    Sentinel::Differs
                },
            ),
        }
    }
}

/// The mount that the guard knows after an answer.
pub open spec fn mount_after(guard: WorkloadGuard, reply: Reply) -> Option<
    ((u32, u32), Seq<char>),
> {
    match reply {
        Reply::Mount(Ok(m)) => if guard.post == Post::Mount(Look::First) {
            Some(m@)
        } else {
            mount_view(guard.mount)
        },
        _ => mount_view(guard.mount),
    }
}

/// What a bar is called.
pub open spec fn bar_text(bar: Bar) -> Seq<char> {
    match bar {
        Bar::Reported => "unexpected answer"@,
        Bar::Backend => "workload backend identifier is absent, foreign, or changed"@,
        Bar::BackendChanged => "workload backend identifier changed during observation"@,
        Bar::ChangedDuringProbe => "workload mount changed during filesystem probe"@,
        Bar::ChangedDuringRead => "workload mount changed during sentinel read"@,
        Bar::Sentinel => "workload volume sentinel does not match"@,
    }
}

/// The error of a bar: what was reported, or its name.
pub open spec fn barred(post: Post, reply: Reply, bar: Bar, e: ExecError) -> bool {
    if bar == Bar::Reported && fits(post, reply) {
        match reply {
            Reply::Backend(Err(m)) => e == ExecError::Io(m),
            Reply::Mount(Err(m)) => e == ExecError::Io(m),
            Reply::Filesystem(Err(x)) => e == x,
            Reply::Sentinel(Err(m)) => e == ExecError::Io(m),
            _ => crate::executor::is_identity_error(e, bar_text(bar)),
        }
    } else {
        crate::executor::is_identity_error(e, bar_text(bar))
    }
}

/// The question of an ask.
pub open spec fn asked(question: Question, guard: WorkloadGuard, ask: Ask) -> bool {
    match ask {
        Ask::Backend => question matches Question::Backend(device) && device@
            == guard.record@.device,
        Ask::Mount => question matches Question::Mount(r) && r@ == guard.record@,
        Ask::Filesystem => question matches Question::Filesystem { record, mount, uuid }
            && record@ == guard.record@ && Some(mount@) == mount_view(guard.mount) && uuid@
            == guard.fs_uuid@,
        Ask::Sentinel => question matches Question::Sentinel { record, mount } && record@
            == guard.record@ && Some(mount@) == mount_view(guard.mount),
        Ask::Stop(_) => question is Stop,
    }
}

fn is_fit(post: Post, reply: &Reply) -> (r: bool)
    ensures
        r == fits(post, *reply),
{
    match post {
        Post::Ready => matches!(reply, Reply::Start),
        Post::Before(_) => matches!(reply, Reply::Backend(_)),
        Post::After(_, _) => matches!(reply, Reply::Backend(_)),
        Post::Mount(_) => matches!(reply, Reply::Mount(_)),
        Post::Filesystem => matches!(reply, Reply::Filesystem(_)),
        Post::Sentinel => matches!(reply, Reply::Sentinel(_)),
        Post::Over => false,
    }
}

fn name_bar(bar: Bar) -> (r: &'static str)
    ensures
        r@ == bar_text(bar),
{
    match bar {
        Bar::Reported => "unexpected answer",
        Bar::Backend => "workload backend identifier is absent, foreign, or changed",
        Bar::BackendChanged => "workload backend identifier changed during observation",
        Bar::ChangedDuringProbe => "workload mount changed during filesystem probe",
        Bar::ChangedDuringRead => "workload mount changed during sentinel read",
        Bar::Sentinel => "workload volume sentinel does not match",
    }
}

fn explain(post: Post, reply: Reply, bar: Bar) -> (r: ExecError)
    ensures
        barred(post, reply, bar, r),
{
    let reported = match bar {
        Bar::Reported => is_fit(post, &reply),
        _ => false,
    };
    if !reported {
        return identity_error(name_bar(bar));
    }
    match reply {
        Reply::Backend(Err(m)) => ExecError::Io(m),
        Reply::Mount(Err(m)) => ExecError::Io(m),
        Reply::Filesystem(Err(e)) => e,
        Reply::Sentinel(Err(m)) => ExecError::Io(m),
        _ => identity_error(name_bar(bar)),
    }
}

impl WorkloadGuard {
    /// A mount is known where the guard works on one.
    pub open spec fn sound(&self) -> bool {
        match self.post {
            Post::Ready | Post::Before(Look::First) | Post::Mount(Look::First) | Post::Over => true,
            _ => self.mount is Some,
        }
    }

    /// Set up the guard for a request and the record of its volume.
    pub fn start(request: &AttachRequest, stored: Result<Option<BoundDeviceRecord>, String>) -> (r:
        Result<WorkloadGuard, ExecError>)
        ensures
            match r {
                Ok(guard) => {
                    &&& guard.sound()
                    &&& request_complaint(*request) is None
                    &&& stored matches Ok(Some(record)) && guard.record == record
                        && record_complaint(*request, Some(record@)) is None
                    &&& request.fs_uuid matches Some(uuid) && guard.fs_uuid@ == uuid@
                    &&& guard.volume_uuid@ == request.volume_uuid@
                    &&& guard.post == Post::Ready
                    &&& guard.mount is None
                    &&& guard.error is None
                },
                Err(e) => if request_complaint(*request) is Some {
                    crate::executor::is_identity_error(e, request_complaint(*request)->Some_0)
                } else {
                    match stored {
                        Err(m) => e == ExecError::Io(m),
                        Ok(found) => ({
                            let complaint = record_complaint(
                                *request,
                                crate::executor::record_view(found),
                            );
                            complaint is Some && crate::executor::is_identity_error(
                                e,
                                complaint->Some_0,
                            )
                        }),
                    }
                },
            },
    {
        match check_request(request) {
            Ok(()) => {},
            Err(e) => return Err(e),
        }
        let record = match stored {
            Err(m) => return Err(ExecError::Io(m)),
            Ok(None) => return Err(identity_error("no trusted attachment to verify")),
            Ok(Some(record)) => record,
        };
        let identity = AttachmentIdentity::of_request(request);
        if !record.attachment.matches(&identity) || (!same(
            request.nbd_device.as_str(),
            AUTO_NBD_DEVICE,
        ) && !same(request.nbd_device.as_str(), record.device.as_str())) {
            return Err(
                identity_error("verify configuration does not match the trusted attach record"),
            );
        }
        if record.recovery.is_none() {
            return Err(identity_error("attachment has no persisted mapping proof"));
        }
        Ok(
            WorkloadGuard {
                record,
                fs_uuid: request.fs_uuid.as_ref().unwrap().clone(),
                volume_uuid: request.volume_uuid.clone(),
                post: Post::Ready,
                mount: None,
                error: None,
            },
        )
    }

    fn judge(&self, reply: &Reply) -> (r: Glance)
        ensures
            r == glance_of(*self, *reply),
    {
        if !is_fit(self.post, reply) {
            return Glance::Astray;
        }
        match reply {
            Reply::Start => Glance::Start,
            Reply::Backend(Err(_)) => Glance::Backend(Backend::Unreadable),
            Reply::Backend(Ok(None)) => Glance::Backend(Backend::Absent),
            Reply::Backend(Ok(Some(id))) => if same(self.record.connection_id.as_str(), id.as_str()) {
                Glance::Backend(Backend::Ours)
            } else {
                Glance::Backend(Backend::Foreign)
            },
            Reply::Mount(Err(_)) => Glance::Mount(Mounted::Failed),
            Reply::Mount(Ok(m)) => {
                let unchanged = match (self.post, &self.mount) {
                    (Post::Mount(Look::First), _) => true,
                    (_, Some(first)) => first.matches(m),
                    _ => false,
                };
                if unchanged {
                    Glance::Mount(Mounted::Same)
                } else {
                    Glance::Mount(Mounted::Other)
                }
            },
            Reply::Filesystem(r) => Glance::Filesystem(r.is_ok()),
            Reply::Sentinel(Err(_)) => Glance::Sentinel(Sentinel::Failed),
            Reply::Sentinel(Ok(value)) => if same(value.as_str(), self.volume_uuid.as_str()) {
                Glance::Sentinel(Sentinel::Matches)
            } else {
                Glance::Sentinel(Sentinel::Differs)
            },
        }
    }

    /// Take an answer and say what to ask for next. The first answer is
    /// [`Reply::Start`].
    pub fn resume(&mut self, reply: Reply) -> (question: Question)
        requires
            old(self).sound(),
        ensures
            final(self).sound(),
            final(self).record@ == old(self).record@,
            final(self).fs_uuid@ == old(self).fs_uuid@,
            final(self).volume_uuid@ == old(self).volume_uuid@,
            mount_view(final(self).mount) == mount_after(*old(self), reply),
            ({
                let (post, ask) = passed(old(self).post, glance_of(*old(self), reply));
                &&& final(self).post == post
                &&& asked(question, *final(self), ask)
                &&& match ask {
                    Ask::Stop(Some(bar)) => final(self).error is Some && barred(
                        old(self).post,
                        reply,
                        bar,
                        final(self).error->Some_0,
                    ),
                    _ => final(self).error == old(self).error,
                }
            }),
    {
        let glance = self.judge(&reply);
        let (post, ask) = pass(self.post, glance);
        let mut first: Option<VerifiedMount> = None;
        match (&reply, self.post) {
            (Reply::Mount(Ok(m)), Post::Mount(Look::First)) => {
                first = Some(m.clone());
            },
            _ => {},
        }
        match ask {
            Ask::Stop(Some(bar)) => {
                self.error = Some(explain(self.post, reply, bar));
            },
            _ => {},
        }
        if first.is_some() {
            self.mount = first;
        }
        self.post = post;
        match ask {
            Ask::Backend => Question::Backend(self.record.device.clone()),
            Ask::Mount => Question::Mount(self.record.clone()),
            Ask::Filesystem => Question::Filesystem {
                record: self.record.clone(),
                mount: self.mount.as_ref().unwrap().clone(),
                uuid: self.fs_uuid.clone(),
            },
            Ask::Sentinel => Question::Sentinel {
                record: self.record.clone(),
                mount: self.mount.as_ref().unwrap().clone(),
            },
            Ask::Stop(_) => Question::Stop,
        }
    }

    /// Whether the guard yields, once it asked for nothing more.
    pub fn finish(self) -> (r: Result<(), ExecError>)
        ensures
            r == match self.error {
                None => Ok::<(), ExecError>(()),
                Some(e) => Err(e),
            },
    {
        match self.error {
            None => Ok(()),
            Some(e) => Err(e),
        }
    }
}

// ---------- what the answers mean ----------

/// A workload is guarded only for a request that pins its filesystem, with the
/// record of that very attachment and the proof of its mappings.
pub proof fn guards_need_a_pinned_and_proven_attachment(
    request: AttachRequest,
    record: crate::state::Record,
)
    ensures
        request_complaint(request) is None <==> (request.fs_uuid matches Some(uuid)
            && crate::config::uuid_complaint("fs_uuid"@, uuid@) is None
            && crate::config::uuid_complaint("volume_uuid"@, request.volume_uuid@) is None),
        record_complaint(request, Some(record)) is None <==> {
            &&& record.attachment == crate::plan::identity_of(request)
            &&& request.nbd_device@ == AUTO_NBD_DEVICE@ || request.nbd_device@ == record.device
            &&& record.recovery is Some
        },
        record_complaint(request, None) is Some,
{
}

/// A sentinel is read exactly from a bounded regular file on the verified device
/// that holds text.
pub proof fn sentinels_are_read_from_the_verified_device(
    device: (u32, u32),
    is_file: bool,
    len: u64,
    file_device: (u32, u32),
    word: Seq<char>,
)
    requires
        crate::text::plain_word(word),
        vstd::utf8::encode_utf8(word + seq!['\n']).len() <= SENTINEL_MAX_BYTES,
    ensures
        sentinel_complaint(
            device,
            is_file,
            len,
            file_device,
            vstd::utf8::encode_utf8(word + seq!['\n']),
        ) is None <==> is_file && len <= SENTINEL_MAX_BYTES && file_device == device,
        crate::text::trimmed(
            vstd::utf8::decode_utf8(vstd::utf8::encode_utf8(word + seq!['\n'])),
        ) == word,
{
    let text = word + seq!['\n'];
    vstd::utf8::encode_utf8_valid_utf8(text);
    vstd::utf8::encode_utf8_decode_utf8(text);
    crate::text::line_feeds_are_trimmed(word);
}

/// The guard takes an answer for what it says: a backend for ours only under the
/// recorded identifier, a mount for the same only if it is the first one, and a
/// sentinel for a match only if it holds the volume's UUID.
pub proof fn glances_tell_what_was_seen(guard: WorkloadGuard, reply: Reply)
    requires
        fits(guard.post, reply),
    ensures
        reply matches Reply::Backend(Ok(Some(id))) ==> (glance_of(guard, reply) == Glance::Backend(
            Backend::Ours,
        ) <==> id@ == guard.record@.connection_id),
        reply matches Reply::Backend(Ok(None)) ==> glance_of(guard, reply) == Glance::Backend(
            Backend::Absent,
        ),
        reply matches Reply::Sentinel(Ok(value)) ==> (glance_of(guard, reply) == Glance::Sentinel(
            Sentinel::Matches,
        ) <==> value@ == guard.volume_uuid@),
        reply matches Reply::Filesystem(r) ==> glance_of(guard, reply) == Glance::Filesystem(
            r is Ok,
        ),
        reply matches Reply::Mount(Ok(m)) ==> guard.post != Post::Mount(Look::First) ==> (glance_of(
            guard,
            reply,
        ) == Glance::Mount(Mounted::Same) <==> mount_view(guard.mount) == Some(m@)),
        reply matches Reply::Mount(Ok(m)) ==> guard.post == Post::Mount(Look::First) ==> mount_after(
            guard,
            reply,
        ) == Some(m@) && glance_of(guard, reply) == Glance::Mount(Mounted::Same),
        reply matches Reply::Mount(Err(_)) ==> glance_of(guard, reply) == Glance::Mount(
            Mounted::Failed,
        ),
{
}

/// Any answer but the one hoped for makes the guard hold.
pub proof fn the_guard_holds_on_any_other_answer(post: Post, glance: Glance, look: Look)
    ensures
        post == Post::Before(look) && glance != Glance::Backend(Backend::Ours) ==> passed(
            post,
            glance,
        ).1 is Stop && passed(post, glance).1 != Ask::Stop(None),
        (post == Post::After(look, true) || post == Post::After(look, false)) && glance
            != Glance::Backend(Backend::Ours) ==> passed(post, glance).1 is Stop && passed(
            post,
            glance,
        ).1 != Ask::Stop(None),
        post == Post::Filesystem && glance != Glance::Filesystem(true) ==> passed(post, glance).1
            == Ask::Stop(Some(Bar::Reported)),
        post == Post::Sentinel && glance == Glance::Sentinel(Sentinel::Differs) ==> passed(
            post,
            glance,
        ).1 == Ask::Stop(Some(Bar::Sentinel)),
{
}

/// The guard looks three times: the filesystem is read after the first look, the
/// sentinel after the second, and the workload starts after the third, as long as
/// the mount is the same each time.
pub proof fn the_guard_looks_three_times(unchanged: bool)
    ensures
        after_look(Look::First, unchanged) == (Post::Filesystem, Ask::Filesystem),
        after_look(Look::Second, true) == (Post::Sentinel, Ask::Sentinel),
        after_look(Look::Third, true) == (Post::Over, Ask::Stop(None)),
        after_look(Look::Second, false) == (
            Post::Over,
            Ask::Stop(Some(Bar::ChangedDuringProbe)),
        ),
        after_look(Look::Third, false) == (Post::Over, Ask::Stop(Some(Bar::ChangedDuringRead))),
{
}

/// What bars a workload is passed on as it was reported.
pub proof fn bars_are_passed_on(post: Post, reply: Reply, e: ExecError)
    requires
        barred(post, reply, Bar::Reported, e),
        fits(post, reply),
    ensures
        reply matches Reply::Backend(Err(m)) ==> e == ExecError::Io(m),
        reply matches Reply::Mount(Err(m)) ==> e == ExecError::Io(m),
        reply matches Reply::Filesystem(Err(x)) ==> e == x,
        reply matches Reply::Sentinel(Err(m)) ==> e == ExecError::Io(m),
{
}

/// The guard asks about its own record, and reads from the mount that it has
/// verified.
pub proof fn the_guard_asks_about_its_record(question: Question, guard: WorkloadGuard, ask: Ask)
    requires
        asked(question, guard, ask),
    ensures
        ask is Backend ==> (question matches Question::Backend(device) && device@
            == guard.record@.device),
        ask is Mount ==> (question matches Question::Mount(r) && r@ == guard.record@),
        ask is Filesystem ==> (question matches Question::Filesystem { record, mount, uuid }
            && record@ == guard.record@ && mount_view(guard.mount) == Some(mount@) && uuid@
            == guard.fs_uuid@),
        ask is Sentinel ==> (question matches Question::Sentinel { record, mount } && record@
            == guard.record@ && mount_view(guard.mount) == Some(mount@)),
        ask is Stop ==> question is Stop,
{
}

/// The guard waits for one kind of reply at a time, and goes astray on any other.
pub proof fn the_guard_waits_for_one_reply(guard: WorkloadGuard, reply: Reply)
    ensures
        fits(guard.post, reply) <==> match guard.post {
            Post::Ready => reply is Start,
            Post::Before(_) => reply is Backend,
            Post::After(..) => reply is Backend,
            Post::Mount(_) => reply is Mount,
            Post::Filesystem => reply is Filesystem,
            Post::Sentinel => reply is Sentinel,
            Post::Over => false,
        },
        !fits(guard.post, reply) ==> glance_of(guard, reply) == Glance::Astray,
{
}

/// What bars a workload without having been reported is told in these words.
pub proof fn bars_are_told_in_these_words(post: Post, reply: Reply, bar: Bar, e: ExecError)
    requires
        barred(post, reply, bar, e),
    ensures
        bar == Bar::Backend ==> crate::executor::is_identity_error(
            e,
            "workload backend identifier is absent, foreign, or changed"@,
        ),
        bar == Bar::BackendChanged ==> crate::executor::is_identity_error(
            e,
            "workload backend identifier changed during observation"@,
        ),
        bar == Bar::ChangedDuringProbe ==> crate::executor::is_identity_error(
            e,
            "workload mount changed during filesystem probe"@,
        ),
        bar == Bar::ChangedDuringRead ==> crate::executor::is_identity_error(
            e,
            "workload mount changed during sentinel read"@,
        ),
        bar == Bar::Sentinel ==> crate::executor::is_identity_error(
            e,
            "workload volume sentinel does not match"@,
        ),
{
}

} // verus!
