//! The plan executor. Everything that decides lives here: which command a step
//! runs, what an answer of the kernel means, and, as a machine that takes one
//! answer at a time, in which order an attach, a detach or a growth proceeds
//! and what is taken back when it fails. Whoever drives the machine performs
//! the actions and hands back what came of them.

use vstd::prelude::*;

use crate::command::MAX_OUTPUT_BYTES;
use crate::lvm_preflight::{owned, read_fields};
use crate::model::hex_digit;
use crate::plan::PlannedStep;
use crate::probe::{choose_free_nbd, nbd_device_of, nbd_index, resolve_leaf_devices};
use crate::sysfs::{digits_only, BlockEntry, BlockTree};
use crate::text::{
    clone_list, from_utf8, from_utf8_lossy, join2, join3, join4, join5, parse_upto, quote, same,
    show, strip_prefix, trim,
};
use crate::verify::MountVerifyError;

verus! {

broadcast use vstd::seq::group_seq_axioms;

/// The lock that serialises attach helpers: device allocation and connection.
pub const ATTACH_LOCK_PATH: &'static str = "/run/maki-attach/attach.lock";

/// How long a connected device may take to become ready, in milliseconds.
pub const NBD_READY_TIMEOUT_MS: u64 = 15_000;

/// A longer sentinel is none: it must not be read into memory as root.
pub const SENTINEL_MAX_BYTES: u64 = 4096;

/// Why a plan was not carried out.
#[derive(Debug)]
pub enum ExecError {
    /// A command ended with a failure.
    StepFailed { step: String, status: Option<i32>, stderr: String },
    /// A step was refused or did not do its work.
    Step { step: String, message: String },
    /// The mount is not the expected one.
    Verify(MountVerifyError),
    NoFreeDevice,
    /// The system did not answer.
    Io(String),
    /// A step failed and what had been done was taken back.
    RolledBack { error: Box<ExecError>, rolled_back: usize, rollback_failed: usize },
}

/// The numeral of a signed number.
pub open spec fn signed(n: int) -> Seq<char> {
    if n < 0 {
        "-"@ + crate::text::decimal((-n) as nat)
    } else {
        crate::text::decimal(n as nat)
    }
}

/// The text of an optional status.
pub open spec fn status_text(status: Option<i32>) -> Seq<char> {
    match status {
        Some(n) => "Some("@ + signed(n as int) + ")"@,
        None => "None"@,
    }
}

/// The rendered form of an error.
pub open spec fn error_text(error: ExecError) -> Seq<char>
    decreases error,
{
    match error {
        ExecError::StepFailed { step, status, stderr } => "step "@ + crate::text::quoted(step@)
            + " failed with status "@ + status_text(status) + ": "@ + stderr@,
        ExecError::Step { step, message } => "step "@ + crate::text::quoted(step@) + " failed: "@
            + message@,
        ExecError::Verify(e) => "secure mount validation failed: "@ + e.0@,
        ExecError::NoFreeDevice => "no free /dev/nbdN device (all connected or module not loaded)"@,
        ExecError::Io(m) => m@,
        ExecError::RolledBack { error, rolled_back, rollback_failed } => error_text(*error)
            + "; rolled back "@ + crate::text::decimal(rolled_back as nat) + " step(s)"@ + if rollback_failed
            > 0 {
            ", "@ + crate::text::decimal(rollback_failed as nat)
                + " rollback step(s) FAILED - manual cleanup required"@
        } else {
            Seq::empty()
        },
    }
}

fn show_signed(n: i32) -> (r: String)
    ensures
        r@ == signed(n as int),
{
    if n < 0 {
        let wide: i64 = n as i64;
        join2("-", show((-wide) as u64).as_str())
    } else {
        show(n as u64)
    }
}

fn show_status(status: &Option<i32>) -> (r: String)
    ensures
        r@ == status_text(*status),
{
    match status {
        Some(n) => join3("Some(", show_signed(*n).as_str(), ")"),
        None => "None".to_owned(),
    }
}

impl ExecError {
    pub fn to_string(&self) -> (r: String)
        ensures
            r@ == error_text(*self),
        decreases *self,
    {
        match self {
            ExecError::StepFailed { step, status, stderr } => {
                let mut out = join5(
                    "step ",
                    quote(step.as_str()).as_str(),
                    " failed with status ",
                    show_status(status).as_str(),
                    ": ",
                );
                out.append(stderr.as_str());
                out
            },
            ExecError::Step { step, message } => join4(
                "step ",
                quote(step.as_str()).as_str(),
                " failed: ",
                message.as_str(),
            ),
            ExecError::Verify(e) => e.to_string(),
            ExecError::NoFreeDevice => "no free /dev/nbdN device (all connected or module not loaded)".to_owned(),
            ExecError::Io(m) => m.clone(),
            ExecError::RolledBack { error, rolled_back, rollback_failed } => {
                let inner = (&**error).to_string();
                let mut out = join4(
                    inner.as_str(),
                    "; rolled back ",
                    show(*rolled_back as u64).as_str(),
                    " step(s)",
                );
                let ghost head = out@;
                if *rollback_failed > 0 {
                    let tail = join3(
                        ", ",
                        show(*rollback_failed as u64).as_str(),
                        " rollback step(s) FAILED - manual cleanup required",
                    );
                    out.append(tail.as_str());
                } else {
                    assert(head + Seq::<char>::empty() =~= head);
                }
                out
            },
        }
    }
}

/// The identity of an attachment is not what it must be.
pub fn identity_error(message: &str) -> (r: ExecError)
    ensures
        r matches ExecError::Step { step, message: m } && step@ == "nbd-identity"@ && m@ == message@,
{
    ExecError::Step { step: "nbd-identity".to_owned(), message: message.to_owned() }
}

// ---------- commands ----------

/// A program with its arguments.
#[derive(Debug)]
pub struct CommandLine {
    pub program: &'static str,
    pub arguments: Vec<String>,
}

/// The program and the arguments of a step, for a step that runs a program.
pub open spec fn step_command(step: crate::plan::Step, identifier: Seq<char>) -> Option<
    (Seq<char>, Seq<Seq<char>>),
> {
    match step {
        crate::plan::Step::ModprobeNbd => Some(("modprobe"@, seq!["nbd"@])),
        crate::plan::Step::NbdConnect { socket, device, block_size } => Some(
            (
                "nbd-client"@,
                seq![
                    "-unix"@,
                    socket,
                    device,
                    "-b"@,
                    crate::text::decimal(block_size as nat),
                    "-identifier"@,
                    identifier,
                ],
            ),
        ),
        crate::plan::Step::SetBlockSize { device, block_size } => Some(
            (
                "blockdev"@,
                seq!["--setbsz"@, crate::text::decimal(block_size as nat), device],
            ),
        ),
        crate::plan::Step::LvmActivate { vg_name } => Some(("vgchange"@, seq!["-ay"@, vg_name])),
        crate::plan::Step::LvmDeactivate { vg_name } => Some(("vgchange"@, seq!["-an"@, vg_name])),
        crate::plan::Step::MountXfs { device, mountpoint } => Some(
            ("mount"@, seq!["-t"@, "xfs"@, "-o"@, "noatime"@, device, mountpoint]),
        ),
        crate::plan::Step::Umount { mountpoint } => Some(("umount"@, seq![mountpoint])),
        crate::plan::Step::NbdDisconnect { device } => Some(("nbd-client"@, seq!["-d"@, device])),
        crate::plan::Step::LvExtend { vg_name, lv_name, add_bytes } => Some(
            (
                "lvextend"@,
                seq![
                    "-L"@,
                    "+"@ + crate::text::decimal(add_bytes as nat) + "b"@,
                    vg_name + "/"@ + lv_name,
                ],
            ),
        ),
        crate::plan::Step::XfsGrowfs { mountpoint } => Some(("xfs_growfs"@, seq![mountpoint])),
        crate::plan::Step::WriteSentinel { .. } => None,
        crate::plan::Step::VerifyMountIdentity { .. } => None,
    }
}

/// The program and the arguments of a step. A connection needs the identifier
/// that the kernel will show as its backend; `Ok(None)` is a step that runs no
/// program.
pub fn command_of(step: &PlannedStep, identifier: Option<&str>) -> (r: Result<
    Option<CommandLine>,
    ExecError,
>)
    ensures
        match r {
            Ok(Some(c)) => (identifier is Some || !(step@ is NbdConnect)) && step_command(
                step@,
                match identifier {
                    Some(i) => i@,
                    None => Seq::empty(),
                },
            ) == Some((c.program@, crate::text::strings(c.arguments@))),
            Ok(None) => step@ is WriteSentinel || step@ is VerifyMountIdentity,
            Err(e) => step@ is NbdConnect && identifier is None && error_text(e) == "step "@
                + crate::text::quoted("nbd-identity"@) + " failed: "@
                + "missing connect identifier"@,
        },
{
    let ghost id: Seq<char> = match identifier {
        Some(i) => i@,
        None => Seq::empty(),
    };
    let (program, arguments): (&'static str, Vec<String>) = match step {
        PlannedStep::ModprobeNbd => ("modprobe", owned(&["nbd"])),
        PlannedStep::NbdConnect { socket, device, block_size } => {
            let bs = show(*block_size as u64);
            match identifier {
                Some(identifier) => (
                    "nbd-client",
                    owned(
                        &[
                            "-unix",
                            socket.as_str(),
                            device.as_str(),
                            "-b",
                            bs.as_str(),
                            "-identifier",
                            identifier,
                        ],
                    ),
                ),
                None => return Err(identity_error("missing connect identifier")),
            }
        },
        PlannedStep::SetBlockSize { device, block_size } => {
            let bs = show(*block_size as u64);
            ("blockdev", owned(&["--setbsz", bs.as_str(), device.as_str()]))
        },
        PlannedStep::LvmActivate { vg_name } => ("vgchange", owned(&["-ay", vg_name.as_str()])),
        PlannedStep::LvmDeactivate { vg_name } => ("vgchange", owned(&["-an", vg_name.as_str()])),
        PlannedStep::MountXfs { device, mountpoint } => (
            "mount",
            owned(&["-t", "xfs", "-o", "noatime", device.as_str(), mountpoint.as_str()]),
        ),
        PlannedStep::WriteSentinel { .. } => return Ok(None),
        PlannedStep::VerifyMountIdentity { .. } => return Ok(None),
        PlannedStep::Umount { mountpoint } => ("umount", owned(&[mountpoint.as_str()])),
        PlannedStep::NbdDisconnect { device } => ("nbd-client", owned(&["-d", device.as_str()])),
        PlannedStep::LvExtend { vg_name, lv_name, add_bytes } => {
            let size = join3("+", show(*add_bytes).as_str(), "b");
            let volume = join3(vg_name.as_str(), "/", lv_name.as_str());
            ("lvextend", owned(&["-L", size.as_str(), volume.as_str()]))
        },
        PlannedStep::XfsGrowfs { mountpoint } => ("xfs_growfs", owned(&[mountpoint.as_str()])),
    };
    proof {
        let words = step_command(step@, id)->Some_0.1;
        assert(crate::text::strings(arguments@) =~= words);
        assert(step_command(step@, id) == Some((program@, crate::text::strings(arguments@))));
    }
    Ok(Some(CommandLine { program, arguments }))
}

/// A program and its arguments as they are typed, with a blank before each
/// argument.
pub open spec fn typed(program: Seq<char>, arguments: Seq<Seq<char>>) -> Seq<char>
    decreases arguments.len(),
{
    if arguments.len() == 0 {
        program
    } else {
        typed(program, arguments.drop_last()) + " "@ + arguments.last()
    }
}

proof fn lemma_typed(program: Seq<char>, front: Seq<Seq<char>>, last: Seq<char>)
    ensures
        typed(program, front.push(last)) == typed(program, front) + " "@ + last,
{
    assert(front.push(last).drop_last() =~= front);
    assert(front.push(last).last() == last);
}

/// A step that is shown as a command line runs exactly that command line: the
/// words of the command, in their order, are the words that are shown. Only the
/// identifier of a connection and the condition of an activation are not part
/// of both.
#[verifier::spinoff_prover]
#[verifier::rlimit(60)]
pub proof fn steps_run_as_they_are_shown(step: crate::plan::Step, identifier: Seq<char>)
    requires
        !(step is WriteSentinel),
        !(step is VerifyMountIdentity),
    ensures
        step_command(step, identifier) is Some,
        ({
            let (program, arguments) = step_command(step, identifier)->Some_0;
            match step {
                crate::plan::Step::NbdConnect { .. } => typed(program, arguments)
                    == crate::plan::step_text(step) + " -identifier "@ + identifier,
                crate::plan::Step::LvmActivate { .. } => typed(program, arguments)
                    + " (only after preflight, by the verified VG UUID and on exactly its devices)"@
                    == crate::plan::step_text(step),
                _ => typed(program, arguments) == crate::plan::step_text(step),
            }
        }),
{
    reveal_with_fuel(typed, 8);
    let (program, arguments) = step_command(step, identifier)->Some_0;
    reveal_strlit(" ");
    match step {
        crate::plan::Step::ModprobeNbd => {
            reveal_strlit("modprobe");
            reveal_strlit("nbd");
            reveal_strlit("modprobe nbd");
            lemma_typed(program, seq![], "nbd"@);
            assert(arguments =~= Seq::<Seq<char>>::empty().push("nbd"@));
            assert(typed(program, arguments) =~= crate::plan::step_text(step));
        },
        crate::plan::Step::NbdConnect { socket, device, block_size } => {
            reveal_strlit("nbd-client");
            reveal_strlit("-unix");
            reveal_strlit("nbd-client -unix ");
            reveal_strlit("-b");
            reveal_strlit(" -b ");
            reveal_strlit("-identifier");
            reveal_strlit(" -identifier ");
            let size = crate::text::decimal(block_size as nat);
            let a1 = seq!["-unix"@];
            let a2 = a1.push(socket);
            let a3 = a2.push(device);
            let a4 = a3.push("-b"@);
            let a5 = a4.push(size);
            let a6 = a5.push("-identifier"@);
            let a7 = a6.push(identifier);
            assert(arguments =~= a7);
            lemma_typed(program, seq![], "-unix"@);
            assert(a1 =~= Seq::<Seq<char>>::empty().push("-unix"@));
            lemma_typed(program, a1, socket);
            lemma_typed(program, a2, device);
            lemma_typed(program, a3, "-b"@);
            lemma_typed(program, a4, size);
            lemma_typed(program, a5, "-identifier"@);
            lemma_typed(program, a6, identifier);
            assert("nbd-client"@ + " "@ + "-unix"@ + " "@ =~= "nbd-client -unix "@);
            assert(" "@ + "-b"@ + " "@ =~= " -b "@);
            assert(" "@ + "-identifier"@ + " "@ =~= " -identifier "@);
            assert(typed(program, a3) =~= "nbd-client -unix "@ + socket + " "@ + device);
            assert(typed(program, a5) =~= typed(program, a3) + " -b "@ + size);
            assert(typed(program, a7) =~= typed(program, a5) + " -identifier "@ + identifier);
        },
        crate::plan::Step::SetBlockSize { device, block_size } => {
            reveal_strlit("blockdev");
            reveal_strlit("--setbsz");
            reveal_strlit("blockdev --setbsz ");
            let size = crate::text::decimal(block_size as nat);
            let a1 = seq!["--setbsz"@];
            let a2 = a1.push(size);
            let a3 = a2.push(device);
            assert(arguments =~= a3);
            lemma_typed(program, seq![], "--setbsz"@);
            assert(a1 =~= Seq::<Seq<char>>::empty().push("--setbsz"@));
            lemma_typed(program, a1, size);
            lemma_typed(program, a2, device);
            assert("blockdev"@ + " "@ + "--setbsz"@ + " "@ =~= "blockdev --setbsz "@);
            assert(typed(program, a3) =~= "blockdev --setbsz "@ + size + " "@ + device);
        },
        crate::plan::Step::LvmActivate { vg_name } => {
            reveal_strlit("vgchange");
            reveal_strlit("-ay");
            reveal_strlit("vgchange -ay ");
            let a1 = seq!["-ay"@];
            let a2 = a1.push(vg_name);
            assert(arguments =~= a2);
            lemma_typed(program, seq![], "-ay"@);
            assert(a1 =~= Seq::<Seq<char>>::empty().push("-ay"@));
            lemma_typed(program, a1, vg_name);
            assert("vgchange"@ + " "@ + "-ay"@ + " "@ =~= "vgchange -ay "@);
            assert(typed(program, a2) =~= "vgchange -ay "@ + vg_name);
        },
        crate::plan::Step::LvmDeactivate { vg_name } => {
            reveal_strlit("vgchange");
            reveal_strlit("-an");
            reveal_strlit("vgchange -an ");
            let a1 = seq!["-an"@];
            let a2 = a1.push(vg_name);
            assert(arguments =~= a2);
            lemma_typed(program, seq![], "-an"@);
            assert(a1 =~= Seq::<Seq<char>>::empty().push("-an"@));
            lemma_typed(program, a1, vg_name);
            assert("vgchange"@ + " "@ + "-an"@ + " "@ =~= "vgchange -an "@);
            assert(typed(program, a2) =~= "vgchange -an "@ + vg_name);
        },
        crate::plan::Step::MountXfs { device, mountpoint } => {
            reveal_strlit("mount");
            reveal_strlit("-t");
            reveal_strlit("xfs");
            reveal_strlit("-o");
            reveal_strlit("noatime");
            reveal_strlit("mount -t xfs -o noatime ");
            let a1 = seq!["-t"@];
            let a2 = a1.push("xfs"@);
            let a3 = a2.push("-o"@);
            let a4 = a3.push("noatime"@);
            let a5 = a4.push(device);
            let a6 = a5.push(mountpoint);
            assert(arguments =~= a6);
            lemma_typed(program, seq![], "-t"@);
            assert(a1 =~= Seq::<Seq<char>>::empty().push("-t"@));
            lemma_typed(program, a1, "xfs"@);
            lemma_typed(program, a2, "-o"@);
            lemma_typed(program, a3, "noatime"@);
            lemma_typed(program, a4, device);
            lemma_typed(program, a5, mountpoint);
            assert(typed(program, a4) + " "@ =~= "mount -t xfs -o noatime "@);
            assert(typed(program, a6) =~= "mount -t xfs -o noatime "@ + device + " "@
                + mountpoint);
        },
        crate::plan::Step::Umount { mountpoint } => {
            reveal_strlit("umount");
            reveal_strlit("umount ");
            lemma_typed(program, seq![], mountpoint);
            assert(arguments =~= Seq::<Seq<char>>::empty().push(mountpoint));
            assert("umount"@ + " "@ =~= "umount "@);
        },
        crate::plan::Step::NbdDisconnect { device } => {
            reveal_strlit("nbd-client");
            reveal_strlit("-d");
            reveal_strlit("nbd-client -d ");
            let a1 = seq!["-d"@];
            let a2 = a1.push(device);
            assert(arguments =~= a2);
            lemma_typed(program, seq![], "-d"@);
            assert(a1 =~= Seq::<Seq<char>>::empty().push("-d"@));
            lemma_typed(program, a1, device);
            assert("nbd-client"@ + " "@ + "-d"@ + " "@ =~= "nbd-client -d "@);
            assert(typed(program, a2) =~= "nbd-client -d "@ + device);
        },
        crate::plan::Step::LvExtend { vg_name, lv_name, add_bytes } => {
            reveal_strlit("lvextend");
            reveal_strlit("-L");
            reveal_strlit("+");
            reveal_strlit("b");
            reveal_strlit("b ");
            reveal_strlit("lvextend -L +");
            let size = crate::text::decimal(add_bytes as nat);
            let volume = vg_name + "/"@ + lv_name;
            let a1 = seq!["-L"@];
            let a2 = a1.push("+"@ + size + "b"@);
            let a3 = a2.push(volume);
            assert(arguments =~= a3);
            lemma_typed(program, seq![], "-L"@);
            assert(a1 =~= Seq::<Seq<char>>::empty().push("-L"@));
            lemma_typed(program, a1, "+"@ + size + "b"@);
            lemma_typed(program, a2, volume);
            assert("lvextend"@ + " "@ + "-L"@ + " "@ + "+"@ =~= "lvextend -L +"@);
            assert("b"@ + " "@ =~= "b "@);
            assert(typed(program, a2) =~= "lvextend -L +"@ + size + "b"@);
            assert(typed(program, a3) =~= crate::plan::step_text(step));
        },
        crate::plan::Step::XfsGrowfs { mountpoint } => {
            reveal_strlit("xfs_growfs");
            reveal_strlit("xfs_growfs ");
            lemma_typed(program, seq![], mountpoint);
            assert(arguments =~= Seq::<Seq<char>>::empty().push(mountpoint));
            assert("xfs_growfs"@ + " "@ =~= "xfs_growfs "@);
        },
        _ => {},
    }
}

/// What each step that runs a program asks of it. A mount names its source
/// before its target, a connection its socket before its device, and what is
/// taken down is named by the step that takes it down.
pub proof fn steps_run_these_programs(
    socket: Seq<char>,
    device: Seq<char>,
    block_size: u32,
    identifier: Seq<char>,
    vg_name: Seq<char>,
    lv_name: Seq<char>,
    add_bytes: u64,
    mountpoint: Seq<char>,
)
    ensures
        step_command(crate::plan::Step::ModprobeNbd, identifier) == Some(
            ("modprobe"@, seq!["nbd"@]),
        ),
        step_command(
            crate::plan::Step::NbdConnect { socket, device, block_size },
            identifier,
        ) == Some(
            (
                "nbd-client"@,
                seq![
                    "-unix"@,
                    socket,
                    device,
                    "-b"@,
                    crate::text::decimal(block_size as nat),
                    "-identifier"@,
                    identifier,
                ],
            ),
        ),
        step_command(crate::plan::Step::SetBlockSize { device, block_size }, identifier) == Some(
            ("blockdev"@, seq!["--setbsz"@, crate::text::decimal(block_size as nat), device]),
        ),
        step_command(crate::plan::Step::LvmActivate { vg_name }, identifier) == Some(
            ("vgchange"@, seq!["-ay"@, vg_name]),
        ),
        step_command(crate::plan::Step::LvmDeactivate { vg_name }, identifier) == Some(
            ("vgchange"@, seq!["-an"@, vg_name]),
        ),
        step_command(crate::plan::Step::MountXfs { device, mountpoint }, identifier) == Some(
            ("mount"@, seq!["-t"@, "xfs"@, "-o"@, "noatime"@, device, mountpoint]),
        ),
        step_command(crate::plan::Step::Umount { mountpoint }, identifier) == Some(
            ("umount"@, seq![mountpoint]),
        ),
        step_command(crate::plan::Step::NbdDisconnect { device }, identifier) == Some(
            ("nbd-client"@, seq!["-d"@, device]),
        ),
        step_command(
            crate::plan::Step::LvExtend { vg_name, lv_name, add_bytes },
            identifier,
        ) == Some(
            (
                "lvextend"@,
                seq![
                    "-L"@,
                    "+"@ + crate::text::decimal(add_bytes as nat) + "b"@,
                    vg_name + "/"@ + lv_name,
                ],
            ),
        ),
        step_command(crate::plan::Step::XfsGrowfs { mountpoint }, identifier) == Some(
            ("xfs_growfs"@, seq![mountpoint]),
        ),
{
}

/// What a finished command means for its step.
pub fn judge_run(step: &PlannedStep, success: bool, status: Option<i32>, stderr: &Vec<u8>) -> (r:
    Result<(), ExecError>)
    ensures
        match r {
            Ok(()) => success,
            Err(e) => !success && (e matches ExecError::StepFailed { step: s, status: c, stderr: t }
                && s@ == crate::plan::step_text(step@) && c == status && t@ == crate::text::lossy(
                stderr@,
            )),
        },
{
    if success {
        Ok(())
    } else {
        Err(
            ExecError::StepFailed {
                step: step.to_string(),
                status,
                stderr: from_utf8_lossy(stderr),
            },
        )
    }
}

// ---------- answers of the system ----------

/// Whether a name is that of an NBD device, not of a partition.
pub open spec fn whole_nbd(name: Seq<char>) -> bool {
    match crate::text::after_prefix(name, "nbd"@) {
        Some(rest) => crate::text::all_digits(rest),
        None => false,
    }
}

/// The NBD devices among the first `n` block devices.
pub open spec fn nbd_devices(devices: Seq<(String, bool)>, n: nat) -> Seq<(String, bool)>
    decreases n,
{
    if n == 0 {
        Seq::empty()
    } else if whole_nbd(devices[n - 1].0@) {
        nbd_devices(devices, (n - 1) as nat).push(devices[n - 1])
    } else {
        nbd_devices(devices, (n - 1) as nat)
    }
}

/// The lowest free NBD device among the block devices, each given with whether
/// it is connected. To be called with the attach lock held.
pub fn allocate_nbd_device(devices: &Vec<(String, bool)>) -> (r: Result<String, ExecError>)
    ensures
        match r {
            Ok(device) => exists|n: nat| #[trigger]
                crate::probe::lowest_free(nbd_devices(devices@, devices@.len()), n) && device@
                    == "/dev/nbd"@ + crate::text::decimal(n),
            Err(e) => e is NoFreeDevice && forall|i: int|
                0 <= i < nbd_devices(devices@, devices@.len()).len() ==> crate::probe::free_index(
                    #[trigger] nbd_devices(devices@, devices@.len())[i],
                ) is None,
        },
{
    let mut list: Vec<(String, bool)> = Vec::new();
    let mut i: usize = 0;
    while i < devices.len()
        invariant
            i <= devices.len(),
            list@ == nbd_devices(devices@, i as nat),
        decreases devices.len() - i,
    {
        let whole = match strip_prefix(devices[i].0.as_str(), "nbd") {
            Some(rest) => digits_only(rest),
            None => false,
        };
        if whole {
            list.push((devices[i].0.clone(), devices[i].1));
        }
        i += 1;
    }
    match choose_free_nbd(list.as_slice()) {
        Some(device) => Ok(device),
        None => Err(ExecError::NoFreeDevice),
    }
}

/// What reading an attribute came to.
#[derive(Debug)]
pub enum Attribute {
    Text(String),
    Missing,
    Failed(String),
}

/// The model of an attribute.
pub enum AttributeView {
    Text(Seq<char>),
    Missing,
    Failed(Seq<char>),
}

impl View for Attribute {
    type V = AttributeView;

    open spec fn view(&self) -> AttributeView {
        match *self {
            Attribute::Text(t) => AttributeView::Text(t@),
            Attribute::Missing => AttributeView::Missing,
            Attribute::Failed(m) => AttributeView::Failed(m@),
        }
    }
}

/// The identifier of a device's backend, or that it has none: a device that is
/// connected must show its backend, and what could not be read is no proof of
/// a disconnection.
pub open spec fn backend_said(device: Seq<char>, backend: AttributeView, pid: AttributeView) -> Result<
    Option<Seq<char>>,
    Seq<char>,
> {
    if crate::probe::device_index(device) is None {
        Err("invalid NBD device"@)
    } else {
        match backend {
            AttributeView::Text(t) if crate::text::trimmed(t).len() > 0 => Ok(
                Some(crate::text::trimmed(t)),
            ),
            AttributeView::Failed(m) => Err(m),
            _ => match pid {
                AttributeView::Missing => Ok(None),
                AttributeView::Failed(m) => Err(m),
                AttributeView::Text(_) => Err(
                    "connected NBD device has no backend identifier; netlink identity support is required"@,
                ),
            },
        }
    }
}

/// The identifier of a device's backend, or that it has none, from the
/// device's `backend` and `pid` attributes.
pub fn nbd_backend(device: &str, backend: &Attribute, pid: &Attribute) -> (r: Result<
    Option<String>,
    String,
>)
    ensures
        match r {
            Ok(o) => backend_said(device@, backend@, pid@) == Ok::<Option<Seq<char>>, Seq<char>>(
                crate::text::optional(o),
            ),
            Err(m) => backend_said(device@, backend@, pid@) == Err::<Option<Seq<char>>, Seq<char>>(
                m@,
            ),
        },
{
    if nbd_index(device).is_none() {
        return Err("invalid NBD device".to_owned());
    }
    match backend {
        Attribute::Text(t) => {
            let value = trim(t.as_str());
            if !value.is_empty() {
                return Ok(Some(value.to_owned()));
            }
        },
        Attribute::Missing => {},
        Attribute::Failed(m) => return Err(m.clone()),
    }
    match pid {
        Attribute::Missing => Ok(None),
        Attribute::Failed(m) => Err(m.clone()),
        Attribute::Text(_) => Err(
            "connected NBD device has no backend identifier; netlink identity support is required".to_owned(),
        ),
    }
}

/// What to do while a device becomes ready.
#[derive(Debug)]
pub enum Readiness {
    Ready,
    Again,
    Failed(ExecError),
}

/// The size that an attribute shows; nothing readable is none.
pub open spec fn shown_size(size: Option<String>) -> nat {
    match size {
        Some(t) => match crate::text::parsed_upto(crate::text::trimmed(t@), u64::MAX as nat) {
            Some(n) => n,
            None => 0,
        },
        None => 0,
    }
}

/// Whether a device is ready: it shows a size and is connected. It is given
/// fifteen seconds.
pub fn judge_readiness(
    step: &PlannedStep,
    device: &str,
    size: &Option<String>,
    connected: bool,
    elapsed_ms: u64,
) -> (r: Readiness)
    ensures
        match r {
            Readiness::Ready => crate::probe::device_index(device@) is Some && shown_size(*size)
                > 0 && connected,
            Readiness::Again => crate::probe::device_index(device@) is Some && !(shown_size(*size)
                > 0 && connected) && elapsed_ms <= NBD_READY_TIMEOUT_MS,
            Readiness::Failed(e) => e matches ExecError::Step { step: s, message } && s@
                == crate::plan::step_text(step@) && if crate::probe::device_index(device@) is None {
                message@ == device@ + " is not a /dev/nbdN device"@
            } else {
                !(shown_size(*size) > 0 && connected) && elapsed_ms > NBD_READY_TIMEOUT_MS
                    && message@ == device@ + " did not become ready within 15s"@
            },
        },
{
    if nbd_index(device).is_none() {
        return Readiness::Failed(
            ExecError::Step {
                step: step.to_string(),
                message: join2(device, " is not a /dev/nbdN device"),
            },
        );
    }
    let n: u64 = match size {
        Some(t) => match parse_upto(trim(t.as_str()), u64::MAX) {
            Some(n) => n,
            None => 0,
        },
        None => 0,
    };
    if n > 0 && connected {
        return Readiness::Ready;
    }
    if elapsed_ms > NBD_READY_TIMEOUT_MS {
        return Readiness::Failed(
            ExecError::Step {
                step: step.to_string(),
                message: join2(device, " did not become ready within 15s"),
            },
        );
    }
    Readiness::Again
}

/// The filesystem UUID that a probe printed, if it printed one.
pub fn printed_uuid(success: bool, stdout: &Vec<u8>) -> (r: Option<String>)
    ensures
        crate::text::optional(r) == if !success || crate::text::trimmed(
            crate::text::lossy(stdout@),
        ).len() == 0 {
            None
        } else {
            Some(crate::text::trimmed(crate::text::lossy(stdout@)))
        },
{
    if !success {
        return None;
    }
    let text = from_utf8_lossy(stdout);
    let value = trim(text.as_str());
    if value.is_empty() {
        None
    } else {
        Some(value.to_owned())
    }
}

// ---------- where the mounted bytes live ----------

/// The name of the first entry from the `i`-th on that has the device number
/// `number`, written as `major:minor`.
pub open spec fn numbered_from(entries: Seq<BlockEntry>, number: Seq<char>, i: int) -> Option<
    Seq<char>,
>
    decreases entries.len() - i,
{
    if i < 0 || i >= entries.len() {
        None
    } else if entries[i].dev is Some && crate::text::trimmed(entries[i].dev->Some_0@) == number {
        Some(entries[i].name@)
    } else {
        numbered_from(entries, number, i + 1)
    }
}

/// What each entry of a tree is built on.
pub open spec fn tree_links(entries: Seq<BlockEntry>) -> Map<Seq<char>, Seq<Seq<char>>>
    decreases entries.len(),
{
    if entries.len() == 0 {
        Map::empty()
    } else {
        tree_links(entries.drop_first()).insert(
            entries[0].name@,
            match entries[0].slaves {
                Some(slaves) => crate::text::strings(slaves@),
                None => Seq::empty(),
            },
        )
    }
}

/// The device that a leaf of the tree stands for: a partition of an NBD device
/// stands for the NBD device.
pub open spec fn leaf_device(name: Seq<char>) -> Seq<char> {
    match crate::probe::nbd_device(name) {
        Some(device) => device,
        None => "/dev/"@ + name,
    }
}

/// The devices of `names`, in that order.
pub open spec fn leaf_devices(names: Seq<Seq<char>>) -> Seq<Seq<char>> {
    names.map_values(|name: Seq<char>| leaf_device(name))
}

/// An entry's slaves, listed under its name.
spec fn listed(entry: BlockEntry, pair: (String, Vec<String>)) -> bool {
    pair.0@ == entry.name@ && crate::text::strings(pair.1@) == match entry.slaves {
        Some(slaves) => crate::text::strings(slaves@),
        None => Seq::empty(),
    }
}

proof fn lemma_links_are_listed(entries: Seq<BlockEntry>, pairs: Seq<(String, Vec<String>)>)
    requires
        entries.len() == pairs.len(),
        forall|i: int| 0 <= i < pairs.len() ==> listed(entries[i], #[trigger] pairs[i]),
    ensures
        crate::probe::links_of(pairs) == tree_links(entries),
    decreases entries.len(),
{
    if entries.len() > 0 {
        assert(listed(entries[0], pairs[0]));
        assert forall|i: int| 0 <= i < pairs.len() - 1 implies listed(
            entries.drop_first()[i],
            #[trigger] pairs.drop_first()[i],
        ) by {
            assert(listed(entries[i + 1], pairs[i + 1]));
        }
        lemma_links_are_listed(entries.drop_first(), pairs.drop_first());
    }
}

/// The block devices that the bytes of a mounted filesystem end up on, for the
/// mounted device's `major:minor`: none where no entry has that number.
pub fn backing_devices(tree: &BlockTree, major_minor: &str) -> (r: Vec<String>)
    ensures
        match numbered_from(tree.entries@, major_minor@, 0) {
            None => r@.len() == 0,
            Some(start) => exists|names: Seq<Seq<char>>|
                {
                    &&& crate::text::ascending(names)
                    &&& names.no_duplicates()
                    &&& names.to_set() == crate::probe::leaves(
                        tree_links(tree.entries@),
                        seq![(start, 0nat)],
                        Set::empty(),
                    )
                    &&& crate::text::strings(r@) == #[trigger] leaf_devices(names)
                },
        },
{
    let entries = &tree.entries;
    let mut pairs: Vec<(String, Vec<String>)> = Vec::new();
    let mut i: usize = 0;
    while i < entries.len()
        invariant
            i <= entries@.len(),
            pairs@.len() == i,
            forall|k: int| 0 <= k < i ==> listed(entries@[k], #[trigger] pairs@[k]),
        decreases entries.len() - i,
    {
        let slaves = match &entries[i].slaves {
            Some(slaves) => clone_list(slaves),
            None => Vec::new(),
        };
        assert(entries@[i as int].slaves is None ==> crate::text::strings(slaves@)
            =~= Seq::<Seq<char>>::empty());
        pairs.push((entries[i].name.clone(), slaves));
        assert(listed(entries@[i as int], pairs@[i as int]));
        i += 1;
    }
    proof {
        lemma_links_are_listed(entries@, pairs@);
    }
    let mut j: usize = 0;
    while j < entries.len()
        invariant
            j <= entries@.len(),
            entries == &tree.entries,
            crate::probe::links_of(pairs@) == tree_links(entries@),
            numbered_from(entries@, major_minor@, 0) == numbered_from(
                entries@,
                major_minor@,
                j as int,
            ),
        decreases entries.len() - j,
    {
        let matching = match &entries[j].dev {
            Some(text) => same(trim(text.as_str()), major_minor),
            None => false,
        };
        if matching {
            let leaves = resolve_leaf_devices(entries[j].name.as_str(), pairs.as_slice());
            let ghost names = crate::text::strings(leaves@);
            let mut out: Vec<String> = Vec::new();
            let mut k: usize = 0;
            while k < leaves.len()
                invariant
                    k <= leaves@.len() == names.len(),
                    names == crate::text::strings(leaves@),
                    crate::text::strings(out@) == leaf_devices(names.take(k as int)),
                decreases leaves.len() - k,
            {
                let name = leaves[k].as_str();
                let device = match nbd_device_of(name) {
                    Some(device) => device,
                    None => join2("/dev/", name),
                };
                let ghost before = out@;
                out.push(device);
                assert(names[k as int] == name@);
                assert(crate::text::strings(out@) =~= crate::text::strings(before).push(
                    leaf_device(name@),
                ));
                assert(leaf_devices(names.take(k + 1)) =~= leaf_devices(names.take(k as int)).push(
                    leaf_device(name@),
                ));
                k += 1;
            }
            assert(names.take(k as int) =~= names);
            return out;
        }
        j += 1;
    }
    Vec::new()
}

// ---------- the filesystem's identity ----------

/// The complaint about what an identity report says of a filesystem: it must be
/// an XFS, and the pinned one where one is pinned.
pub open spec fn filesystem_said(
    fields: Map<Seq<char>, Seq<char>>,
    pinned: Option<Seq<char>>,
) -> Option<Seq<char>> {
    if !fields.contains_key("TYPE"@) || fields["TYPE"@] != "xfs"@ {
        Some("filesystem is not XFS"@)
    } else if pinned is Some && !(fields.contains_key("UUID"@) && fields["UUID"@]
        == pinned->Some_0) {
        Some("filesystem UUID mismatch"@)
    } else {
        None
    }
}

/// The complaint about a probe of a filesystem's identity. The report holds one
/// `KEY=VALUE` per line, no key twice.
pub open spec fn filesystem_complaint(
    pinned: Option<Seq<char>>,
    success: bool,
    stdout: Seq<u8>,
) -> Option<Seq<char>> {
    if !success || stdout.len() > MAX_OUTPUT_BYTES {
        Some("filesystem identity probe failed"@)
    } else if !vstd::utf8::valid_utf8(stdout) {
        Some("invalid filesystem identity report"@)
    } else {
        let lines = crate::text::lines(vstd::utf8::decode_utf8(stdout));
        match crate::lvm_preflight::label_fields(lines, lines.len()) {
            Err(_) => Some("ambiguous filesystem identity report"@),
            Ok(fields) => filesystem_said(fields, pinned),
        }
    }
}

/// Hold a probe of a filesystem's identity to what is expected: whether the
/// probe succeeded, and what it wrote.
pub fn verify_filesystem_probe(pinned: Option<&str>, success: bool, stdout: Vec<u8>) -> (r: Result<
    (),
    ExecError,
>)
    ensures
        ({
            let expected = match pinned {
                Some(uuid) => Some(uuid@),
                None => None,
            };
            let complaint = filesystem_complaint(expected, success, stdout@);
            match r {
                Ok(()) => complaint is None,
                Err(e) => complaint is Some && (e matches ExecError::Step { step, message } && step@
                    == "nbd-identity"@ && message@ == complaint->Some_0),
            }
        }),
{
    if !success || stdout.len() > MAX_OUTPUT_BYTES {
        return Err(identity_error("filesystem identity probe failed"));
    }
    let text = match from_utf8(stdout) {
        Some(text) => text,
        None => return Err(identity_error("invalid filesystem identity report")),
    };
    proof {
        vstd::utf8::encode_utf8_decode_utf8(text@);
    }
    let fields = match read_fields(text.as_str()) {
        Ok(fields) => fields,
        Err(_) => return Err(identity_error("ambiguous filesystem identity report")),
    };
    let ghost map = crate::table::entries(fields@);
    let is_xfs = match fields.get("TYPE") {
        Some(kind) => {
            assert(map.contains_key("TYPE"@) && map["TYPE"@] == kind@);
            same(kind.as_str(), "xfs")
        },
        None => false,
    };
    if !is_xfs {
        return Err(identity_error("filesystem is not XFS"));
    }
    match pinned {
        None => Ok(()),
        Some(expected) => {
            let matching = match fields.get("UUID") {
                Some(uuid) => {
                    assert(map.contains_key("UUID"@) && map["UUID"@] == uuid@);
                    same(uuid.as_str(), expected)
                },
                None => false,
            };
            if matching {
                Ok(())
            } else {
                Err(identity_error("filesystem UUID mismatch"))
            }
        },
    }
}

/// The arguments of the `blkid` probe of a filesystem's identity, for the
/// device that `path` leads to.
pub fn filesystem_arguments(path: &str) -> (r: Vec<String>)
    ensures
        crate::text::strings(r@) == seq![
            "--probe"@,
            "--output"@,
            "export"@,
            "--match-tag"@,
            "TYPE"@,
            "--match-tag"@,
            "UUID"@,
            path@,
        ],
{
    let r = owned(
        &["--probe", "--output", "export", "--match-tag", "TYPE", "--match-tag", "UUID", path],
    );
    assert(crate::text::strings(r@) =~= seq![
        "--probe"@,
        "--output"@,
        "export"@,
        "--match-tag"@,
        "TYPE"@,
        "--match-tag"@,
        "UUID"@,
        path@,
    ]);
    r
}

// ---------- the size of a volume ----------

/// The size in bytes that a growth gives a volume. One that an earlier attempt
/// had set itself stays; otherwise the increase comes on top of the present
/// size, where the sum is a size at all.
pub open spec fn growth_target(kept: Option<u64>, size: u64, add: u64) -> Option<u64> {
    match kept {
        Some(target) => Some(target),
        None => if size + add <= u64::MAX {
            Some((size + add) as u64)
        } else {
            None
        },
    }
}

/// The size in bytes that a growth gives a volume.
pub fn choose_target(kept: Option<u64>, size: u64, add: u64) -> (r: Option<u64>)
    ensures
        r == growth_target(kept, size, add),
{
    match kept {
        Some(target) => Some(target),
        None => size.checked_add(add),
    }
}

/// A growth that is tried again ends at the size of its first attempt, whatever
/// the volume's size is by then.
pub proof fn a_repeated_growth_ends_at_the_first_target(before: u64, add: u64, later: u64)
    requires
        before + add <= u64::MAX,
    ensures
        growth_target(growth_target(None, before, add), later, add) == Some((before + add) as u64),
{
}

/// The arguments of the `lvextend` that gives a volume a size in bytes.
pub fn extension_arguments(vg_name: &str, lv_name: &str, target: u64) -> (r: Vec<String>)
    ensures
        crate::text::strings(r@) == seq![
            "-L"@,
            crate::text::decimal(target as nat) + "b"@,
            vg_name@ + "/"@ + lv_name@,
        ],
{
    let size = join2(show(target).as_str(), "b");
    let volume = join3(vg_name, "/", lv_name);
    let r = owned(&["-L", size.as_str(), volume.as_str()]);
    assert(crate::text::strings(r@) =~= seq!["-L"@, size@, volume@]);
    r
}

/// The arguments of the `blockdev` that prints the size of a volume in bytes.
pub fn size_arguments(vg_name: &str, lv_name: &str) -> (r: Vec<String>)
    ensures
        crate::text::strings(r@) == seq!["--getsize64"@, "/dev/"@ + vg_name@ + "/"@ + lv_name@],
{
    let device = join4("/dev/", vg_name, "/", lv_name);
    let r = owned(&["--getsize64", device.as_str()]);
    assert(crate::text::strings(r@) =~= seq!["--getsize64"@, device@]);
    r
}

/// The size that `blockdev` printed, if it succeeded and printed one.
pub fn printed_size(success: bool, stdout: &Vec<u8>) -> (r: Result<u64, String>)
    ensures
        ({
            let printed = crate::text::parsed_upto(
                crate::text::trimmed(crate::text::lossy(stdout@)),
                u64::MAX as nat,
            );
            match r {
                Ok(n) => success && printed == Some(n as nat),
                Err(m) => (!success || printed is None) && m@ == "could not read the volume size"@,
            }
        }),
{
    if !success {
        return Err("could not read the volume size".to_owned());
    }
    let text = from_utf8_lossy(stdout);
    match parse_upto(trim(text.as_str()), u64::MAX) {
        Some(n) => Ok(n),
        None => Err("could not read the volume size".to_owned()),
    }
}

// ---------- the sentinel ----------

/// The volume UUID that a sentinel file holds: only a regular file of at most
/// [`SENTINEL_MAX_BYTES`] with text in it holds one.
pub fn sentinel_value(is_file: bool, len: u64, text: &Option<String>) -> (r: Option<String>)
    ensures
        crate::text::optional(r) == match *text {
            Some(t) => if is_file && len <= SENTINEL_MAX_BYTES && crate::text::trimmed(t@).len()
                > 0 {
                Some(crate::text::trimmed(t@))
            } else {
                None
            },
            None => None,
        },
{
    if !is_file || len > SENTINEL_MAX_BYTES {
        return None;
    }
    match text {
        Some(t) => {
            let value = trim(t.as_str());
            if value.is_empty() {
                None
            } else {
                Some(value.to_owned())
            }
        },
        None => None,
    }
}

/// What writing the sentinel comes to.
#[derive(Debug)]
pub enum SentinelAction {
    /// It is there already.
    Keep,
    /// Create it with this content.
    Create(String),
    /// It holds something else.
    Refuse(ExecError),
}

/// Create the sentinel if there is none; never change one.
pub fn plan_sentinel(step: &PlannedStep, existing: &Option<String>, volume_uuid: &str) -> (r:
    SentinelAction)
    ensures
        match *existing {
            Some(value) => if value@ == volume_uuid@ {
                r is Keep
            } else {
                r matches SentinelAction::Refuse(e) && (e matches ExecError::Step {
                    step: s,
                    message,
                } && s@ == crate::plan::step_text(step@) && message@
                    == "sentinel already holds a different volume uuid "@ + crate::text::quoted(
                    value@,
                ) + "; refusing to overwrite"@)
            },
            None => r matches SentinelAction::Create(content) && content@ == volume_uuid@ + "\n"@,
        },
{
    match existing {
        Some(value) => {
            if same(value.as_str(), volume_uuid) {
                SentinelAction::Keep
            } else {
                SentinelAction::Refuse(
                    ExecError::Step {
                        step: step.to_string(),
                        message: join3(
                            "sentinel already holds a different volume uuid ",
                            quote(value.as_str()).as_str(),
                            "; refusing to overwrite",
                        ),
                    },
                )
            }
        },
        None => SentinelAction::Create(join2(volume_uuid, "\n")),
    }
}

/// The hexadecimal numeral of a number, without leading zeros.
pub open spec fn hexadecimal(n: nat) -> Seq<char>
    decreases n,
{
    if n < 16 {
        seq![crate::model::hex_char(n as int)]
    } else {
        hexadecimal(n / 16).push(crate::model::hex_char((n % 16) as int))
    }
}

fn show_hex(n: u128) -> (r: String)
    ensures
        r@ == hexadecimal(n as nat),
    decreases n,
{
    let d: u8 = (n % 16) as u8;
    let c = hex_digit(d);
    let mut out = if n < 16 {
        String::new()
    } else {
        show_hex(n / 16)
    };
    out.push(c);
    assert(n < 16 ==> out@ =~= seq![crate::model::hex_char(n as int)]);
    out
}

/// The name of the file that a read-write probe creates: nobody can predict it.
pub fn rw_probe_name(pid: u32, nanos: u128) -> (r: String)
    ensures
        r@ == ".maki-rw-probe."@ + hexadecimal(pid as nat) + hexadecimal(nanos as nat),
{
    join3(".maki-rw-probe.", show_hex(pid as u128).as_str(), show_hex(nanos).as_str())
}

/// What a read-write probe writes.
pub fn rw_probe_payload(pid: u32) -> (r: String)
    ensures
        r@ == "maki-rw-probe "@ + crate::text::decimal(pid as nat),
{
    join2("maki-rw-probe ", show(pid as u64).as_str())
}

// ---------- what the answers say ----------

/// A filesystem's report passes exactly when it names an XFS, and the pinned
/// UUID where one is pinned, wherever in the report these stand and whatever
/// else it says.
pub proof fn filesystems_pass_by_type_and_pinned_uuid(
    keys: Seq<Seq<char>>,
    values: Seq<Seq<char>>,
    pinned: Option<Seq<char>>,
    stdout: Seq<u8>,
)
    requires
        keys.len() == values.len(),
        keys.no_duplicates(),
        forall|i: int|
            0 <= i < keys.len() ==> !(#[trigger] keys[i]).contains('=') && !keys[i].contains('\n'),
        forall|i: int|
            0 <= i < values.len() ==> (#[trigger] values[i]).len() > 0 && !values[i].contains(
                '\n',
            ) && values[i].last() != '\r',
        vstd::utf8::valid_utf8(stdout),
        vstd::utf8::decode_utf8(stdout) == crate::text::fed(
            crate::lvm_preflight::field_lines(keys, values),
        ),
        stdout.len() <= MAX_OUTPUT_BYTES,
    ensures
        filesystem_complaint(pinned, true, stdout) is None <==> {
            &&& exists|i: int| 0 <= i < keys.len() && #[trigger] keys[i] == "TYPE"@ && values[i] == "xfs"@
            &&& pinned matches Some(uuid) ==> exists|i: int|
                0 <= i < keys.len() && #[trigger] keys[i] == "UUID"@ && values[i] == uuid
        },
        filesystem_complaint(pinned, false, stdout) is Some,
{
    let lines = crate::lvm_preflight::field_lines(keys, values);
    assert forall|i: int| 0 <= i < lines.len() implies !(#[trigger] lines[i]).contains('\n') && (
    lines[i].len() > 0 ==> lines[i].last() != '\r') by {
        let line = lines[i];
        assert(line == keys[i] + seq!['='] + values[i]);
        assert(values[i].len() > 0);
        assert(line.last() == values[i].last());
        if line.contains('\n') {
            let k = line.index_of('\n');
            let a = keys[i].len() as int;
            if k < a {
                assert(keys[i][k] == '\n');
            } else if k > a {
                assert(values[i][k - a - 1] == '\n');
            }
        }
    }
    crate::text::fed_lines_read_back(lines);
    crate::lvm_preflight::fields_are_read_as_they_are_set(keys, values, keys.len());
    assert(keys.take(keys.len() as int) =~= keys);
    let fields = crate::lvm_preflight::label_fields(lines, lines.len())->Ok_0;
    if fields.contains_key("TYPE"@) {
        let i = keys.index_of("TYPE"@);
        assert(keys[i] == "TYPE"@);
        assert(fields[keys[i]] == values[i]);
    }
    if fields.contains_key("UUID"@) {
        let i = keys.index_of("UUID"@);
        assert(keys[i] == "UUID"@);
        assert(fields[keys[i]] == values[i]);
    }
    assert forall|i: int| 0 <= i < keys.len() implies fields.contains_key(#[trigger] keys[i])
        && fields[keys[i]] == values[i] by {
        assert(keys.contains(keys[i]));
    }
}

/// A device shows its backend by an identifier. It counts as disconnected only
/// where neither an identifier nor a process is there to be read: a process
/// without an identifier and an attribute that cannot be read are errors.
pub proof fn backends_show_an_identifier_or_are_absent(
    n: u32,
    backend: AttributeView,
    pid: AttributeView,
)
    ensures
        ({
            let said = backend_said("/dev/nbd"@ + crate::text::decimal(n as nat), backend, pid);
            let silent = backend is Missing || (backend is Text && crate::text::trimmed(
                backend->Text_0,
            ).len() == 0);
            &&& backend is Text && crate::text::trimmed(backend->Text_0).len() > 0 ==> said == Ok::<
                Option<Seq<char>>,
                Seq<char>,
            >(Some(crate::text::trimmed(backend->Text_0)))
            &&& said == Ok::<Option<Seq<char>>, Seq<char>>(None) <==> silent && pid is Missing
            &&& silent && pid is Text ==> said is Err
            &&& backend is Failed ==> said == Err::<Option<Seq<char>>, Seq<char>>(backend->Failed_0)
            &&& silent && pid is Failed ==> said == Err::<Option<Seq<char>>, Seq<char>>(
                pid->Failed_0,
            )
        }),
{
    crate::probe::nbd_names_tell_their_number(n, 0);
}

/// A block device is found by its number, the first one that has it.
pub proof fn devices_are_found_by_their_number(
    entries: Seq<BlockEntry>,
    number: Seq<char>,
    i: int,
    k: int,
)
    requires
        0 <= i <= k <= entries.len(),
        forall|j: int|
            i <= j < k ==> !((#[trigger] entries[j]).dev matches Some(d) && crate::text::trimmed(d@)
                == number),
    ensures
        k == entries.len() ==> numbered_from(entries, number, i) is None,
        k < entries.len() && (entries[k].dev matches Some(d) && crate::text::trimmed(d@) == number)
            ==> numbered_from(entries, number, i) == Some(entries[k].name@),
    decreases k - i,
{
    if i < k {
        devices_are_found_by_their_number(entries, number, i + 1, k);
    }
}

/// A tree links each of its devices to exactly what that device is built on.
pub proof fn trees_link_devices_to_their_slaves(entries: Seq<BlockEntry>, k: int)
    requires
        0 <= k < entries.len(),
        forall|i: int, j: int|
            0 <= i < j < entries.len() ==> (#[trigger] entries[i]).name@ != (
            #[trigger] entries[j]).name@,
    ensures
        tree_links(entries).contains_key(entries[k].name@),
        entries[k].slaves matches Some(slaves) ==> tree_links(entries)[entries[k].name@]
            == crate::text::strings(slaves@),
        entries[k].slaves is None ==> tree_links(entries)[entries[k].name@].len() == 0,
    decreases entries.len(),
{
    if k > 0 {
        let rest = entries.drop_first();
        assert forall|i: int, j: int| 0 <= i < j < rest.len() implies (#[trigger] rest[i]).name@
            != (#[trigger] rest[j]).name@ by {
            assert(entries[i + 1].name@ != entries[j + 1].name@);
        }
        trees_link_devices_to_their_slaves(rest, k - 1);
        assert(rest[k - 1] == entries[k]);
        assert(entries[0].name@ != entries[k].name@);
    }
}

/// Bytes on an NBD device or on one of its partitions are on that NBD device;
/// bytes on any other device are on that device.
pub proof fn leaves_stand_for_their_device(n: u32, k: u32, name: Seq<char>)
    ensures
        leaf_device("nbd"@ + crate::text::decimal(n as nat)) == "/dev/nbd"@ + crate::text::decimal(
            n as nat,
        ),
        leaf_device(
            "nbd"@ + (crate::text::decimal(n as nat) + "p"@ + crate::text::decimal(k as nat)),
        ) == "/dev/nbd"@ + crate::text::decimal(n as nat),
        !crate::text::starts_with(name, "nbd"@) ==> leaf_device(name) == "/dev/"@ + name,
{
    crate::probe::nbd_names_tell_their_number(n, k);
    crate::probe::other_names_have_no_number(name);
}

/// A device shows the size that its attribute holds as a numeral, and none where
/// it holds none.
pub proof fn sizes_are_shown_as_numerals(size: String, n: u64)
    requires
        size@ == crate::text::decimal(n as nat) + seq!['\n'],
    ensures
        shown_size(Some(size)) == n,
        shown_size(None) == 0,
{
    crate::text::numerals_are_read_up_to_a_limit(n as nat, u64::MAX as nat);
    crate::text::line_feeds_are_trimmed(crate::text::decimal(n as nat));
}

/// Only whole NBD devices are taken for new attachments: a name with digits
/// alone behind `nbd`, and none with anything else in it.
pub proof fn partitions_are_not_taken_for_devices(n: nat, rest: Seq<char>, c: char)
    requires
        rest.contains(c),
        !('0' <= c <= '9'),
    ensures
        whole_nbd("nbd"@ + crate::text::decimal(n)),
        !whole_nbd("nbd"@ + rest),
{
    crate::text::numerals_are_read_up_to_a_limit(n, n);
    crate::text::prefixes_come_off("nbd"@, crate::text::decimal(n));
    crate::text::prefixes_come_off("nbd"@, rest);
    crate::text::characters_are_classed_by_range(c);
}

/// Every whole NBD device among the block devices is considered, and no other.
pub proof fn every_whole_device_is_considered(devices: Seq<(String, bool)>, n: nat, d: (String, bool))
    requires
        n <= devices.len(),
    ensures
        nbd_devices(devices, n).contains(d) <==> devices.take(n as int).contains(d) && whole_nbd(
            d.0@,
        ),
    decreases n,
{
    let list = nbd_devices(devices, n);
    if n > 0 {
        let m = (n - 1) as nat;
        let before = nbd_devices(devices, m);
        every_whole_device_is_considered(devices, m, d);
        assert(devices.take(n as int) =~= devices.take(m as int).push(devices[m as int]));
        assert(devices.take(n as int)[m as int] == devices[m as int]);
        if before.contains(d) && whole_nbd(devices[m as int].0@) {
            assert(list[before.index_of(d)] == d);
        }
        if devices.take(m as int).contains(d) {
            let i = devices.take(m as int).index_of(d);
            assert(devices.take(n as int)[i] == d);
        }
        if devices[m as int] == d && whole_nbd(d.0@) {
            assert(list[list.len() - 1] == d);
        }
        if list.contains(d) && !before.contains(d) {
            let i = list.index_of(d);
            assert(i == before.len());
        }
        if devices.take(n as int).contains(d) && !devices.take(m as int).contains(d) {
            let i = devices.take(n as int).index_of(d);
            if i < m {
                assert(devices.take(m as int)[i] == d);
            }
        }
    }
}

/// Different numbers have different hexadecimal numerals.
pub proof fn hexadecimal_numerals_tell_their_number(n: nat, m: nat)
    ensures
        hexadecimal(n) == hexadecimal(m) ==> n == m,
        hexadecimal(n).len() > 0,
        n < 16 <==> hexadecimal(n).len() == 1,
    decreases n,
{
    reveal_with_fuel(hexadecimal, 2);
    assert forall|a: int, b: int|
        0 <= a < 16 && 0 <= b < 16 && crate::model::hex_char(a) == crate::model::hex_char(
            b,
        ) implies a == b by {}
    if n >= 16 {
        hexadecimal_numerals_tell_their_number(n / 16, m / 16);
        if hexadecimal(n) == hexadecimal(m) {
            assert(hexadecimal(n).last() == crate::model::hex_char((n % 16) as int));
            if m >= 16 {
                assert(hexadecimal(m).last() == crate::model::hex_char((m % 16) as int));
                assert(hexadecimal(n).drop_last() =~= hexadecimal(n / 16));
                assert(hexadecimal(m).drop_last() =~= hexadecimal(m / 16));
            } else {
                assert(hexadecimal(n).len() == hexadecimal(n / 16).len() + 1);
            }
        }
    } else if m >= 16 {
        lemma_hexadecimal_digits(m);
    } else {
        assert(hexadecimal(n)[0] == crate::model::hex_char(n as int));
        assert(hexadecimal(m)[0] == crate::model::hex_char(m as int));
    }
}

proof fn lemma_hexadecimal_digits(m: nat)
    ensures
        hexadecimal(m).len() > 0,
        m >= 16 ==> hexadecimal(m).len() > 1,
    decreases m,
{
    if m >= 16 {
        lemma_hexadecimal_digits(m / 16);
    }
}

/// A failure is shown with its step, its status and what the command wrote; a
/// rollback tells how many steps it took back, and of failures only where there
/// were some.
pub proof fn failures_are_shown_with_their_parts(
    step: String,
    status: Option<i32>,
    stderr: String,
    message: String,
    error: Box<ExecError>,
    rolled_back: usize,
    rollback_failed: usize,
)
    ensures
        error_text(ExecError::StepFailed { step, status, stderr }) == "step "@
            + crate::text::quoted(step@) + " failed with status "@ + status_text(status) + ": "@
            + stderr@,
        error_text(ExecError::Step { step, message }) == "step "@ + crate::text::quoted(step@)
            + " failed: "@ + message@,
        error_text(ExecError::Io(message)) == message@,
        error_text(ExecError::RolledBack { error, rolled_back, rollback_failed: 0 }) == error_text(
            *error,
        ) + "; rolled back "@ + crate::text::decimal(rolled_back as nat) + " step(s)"@,
        rollback_failed > 0 ==> error_text(
            ExecError::RolledBack { error, rolled_back, rollback_failed },
        ) == error_text(*error) + "; rolled back "@ + crate::text::decimal(rolled_back as nat)
            + " step(s)"@ + (", "@ + crate::text::decimal(rollback_failed as nat)
            + " rollback step(s) FAILED - manual cleanup required"@),
{
    let whole = error_text(*error) + "; rolled back "@ + crate::text::decimal(rolled_back as nat)
        + " step(s)"@;
    assert(whole + Seq::<char>::empty() =~= whole);
}

/// Signed numbers are shown with a minus sign exactly where they are negative,
/// and different ones differently.
pub proof fn signed_numbers_are_told_apart(a: int, b: int)
    ensures
        a >= 0 ==> signed(a) == crate::text::decimal(a as nat),
        a < 0 ==> signed(a) == seq!['-'] + crate::text::decimal((-a) as nat),
        signed(a) == signed(b) ==> a == b,
{
    reveal_strlit("-");
    assert("-"@ =~= seq!['-']);
    let m = |n: int| if n < 0 {
        (-n) as nat
    } else {
        n as nat
    };
    crate::text::numerals_are_read_up_to_a_limit(m(a), m(a));
    crate::text::numerals_are_read_up_to_a_limit(m(b), m(b));
    let x = crate::text::decimal(m(a));
    let y = crate::text::decimal(m(b));
    if signed(a) == signed(b) {
        if a < 0 && b < 0 {
            assert((seq!['-'] + x).skip(1) =~= x);
            assert((seq!['-'] + y).skip(1) =~= y);
            crate::text::numerals_tell_their_number(m(a), m(b));
        } else if a < 0 {
            assert(y[0] == '-');
            crate::text::characters_are_classed_by_range('-');
        } else if b < 0 {
            assert(x[0] == '-');
            crate::text::characters_are_classed_by_range('-');
        } else {
            crate::text::numerals_tell_their_number(m(a), m(b));
        }
    }
}

} // verus!
