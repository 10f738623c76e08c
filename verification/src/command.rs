//! Limits for the commands that the one-shot privileged helper runs. A deadline
//! covers the draining of both output streams: a parent that exited is not done
//! while a descendant still holds a pipe. After a failure only the process
//! group that was made for the command is cleaned up.

use vstd::prelude::*;

verus! {

broadcast use vstd::seq::group_seq_axioms;

/// The longest output that is taken from one stream of a command.
pub const MAX_OUTPUT_BYTES: usize = 65_536;

/// How long to pause between two polls, in milliseconds.
pub const POLL_INTERVAL_MS: u64 = 5;

/// The limits of one command, in milliseconds and bytes.
#[derive(Debug, Clone, Copy, PartialEq, Eq, Structural)]
pub struct Policy {
    pub timeout_ms: u64,
    pub terminate_grace_ms: u64,
    pub reap_timeout_ms: u64,
    pub max_output_bytes: usize,
}

impl Policy {
    /// The limits of a step. They leave room below the service's start timeout
    /// for the readiness of a device and for a rollback.
    pub fn step() -> (r: Policy)
        ensures
            r == (Policy {
                timeout_ms: 120_000,
                terminate_grace_ms: 1_000,
                reap_timeout_ms: 1_000,
                max_output_bytes: MAX_OUTPUT_BYTES,
            }),
    {
        Policy {
            timeout_ms: 120_000,
            terminate_grace_ms: 1_000,
            reap_timeout_ms: 1_000,
            max_output_bytes: MAX_OUTPUT_BYTES,
        }
    }

    /// The limits of a probe.
    pub fn probe() -> (r: Policy)
        ensures
            r == (Policy {
                timeout_ms: 15_000,
                terminate_grace_ms: 1_000,
                reap_timeout_ms: 1_000,
                max_output_bytes: MAX_OUTPUT_BYTES,
            }),
    {
        Policy {
            timeout_ms: 15_000,
            terminate_grace_ms: 1_000,
            reap_timeout_ms: 1_000,
            max_output_bytes: MAX_OUTPUT_BYTES,
        }
    }
}

/// Why a command came to nothing.
#[derive(Debug, PartialEq, Eq)]
pub enum CommandError {
    TimedOut,
    OutputLimit,
    WaitStatus,
    StatusLost,
    Cleanup,
    /// The system did not answer.
    Io(String),
}

/// The rendered form of an error.
pub open spec fn command_error_text(error: CommandError) -> Seq<char> {
    match error {
        CommandError::TimedOut => "external command exceeded its execution deadline"@,
        CommandError::OutputLimit => "external command exceeded its output limit"@,
        CommandError::WaitStatus => "unexpected external command wait status"@,
        CommandError::StatusLost => "external command exit status became unavailable"@,
        CommandError::Cleanup =>
        "external command failed; process-group cleanup did not finish within its deadline"@,
        CommandError::Io(m) => m@,
    }
}

impl CommandError {
    pub fn to_string(&self) -> (r: String)
        ensures
            r@ == command_error_text(*self),
    {
        match self {
            CommandError::TimedOut => "external command exceeded its execution deadline".to_owned(),
            CommandError::OutputLimit => "external command exceeded its output limit".to_owned(),
            CommandError::WaitStatus => "unexpected external command wait status".to_owned(),
            CommandError::StatusLost => "external command exit status became unavailable".to_owned(),
            CommandError::Cleanup => "external command failed; process-group cleanup did not finish within its deadline".to_owned(),
            CommandError::Io(m) => m.clone(),
        }
    }
}

// ---------- the output of a command ----------

/// What one read of a stream came to.
#[derive(Debug)]
pub enum ReadOutcome {
    /// The stream has ended.
    End,
    Data(Vec<u8>),
    /// Nothing for now.
    Again,
    Failed(String),
}

/// One output stream of a command.
#[derive(Debug)]
pub struct Stream {
    pub open: bool,
    pub bytes: Vec<u8>,
}

impl Stream {
    /// A stream of which nothing was read yet.
    pub fn new() -> (r: Stream)
        ensures
            r.open,
            r.bytes@ == Seq::<u8>::empty(),
    {
        Stream { open: true, bytes: Vec::new() }
    }

    /// Take what one read brought. More than `limit` bytes in all are refused,
    /// and nothing of such a read is kept. A stream that has ended takes
    /// nothing more.
    pub fn drain(&mut self, read: ReadOutcome, limit: usize) -> (r: Result<(), CommandError>)
        ensures
            match r {
                Ok(()) => {
                    &&& final(self).open == (old(self).open && !(read is End))
                    &&& final(self).bytes@ == match read {
                        ReadOutcome::Data(more) => if old(self).open {
                            old(self).bytes@ + more@
                        } else {
                            old(self).bytes@
                        },
                        _ => old(self).bytes@,
                    }
                    &&& old(self).open ==> !(read is Failed) && (read matches ReadOutcome::Data(
                        more,
                    ) ==> more@.len() == 0 || old(self).bytes@.len() + more@.len() <= limit)
                },
                Err(e) => {
                    &&& *final(self) == *old(self)
                    &&& old(self).open
                    &&& match read {
                        ReadOutcome::Failed(m) => e == CommandError::Io(m),
                        ReadOutcome::Data(more) => more@.len() > 0 && old(self).bytes@.len()
                            + more@.len() > limit && e == CommandError::OutputLimit,
                        _ => false,
                    }
                },
            },
    {
        if !self.open {
            return Ok(());
        }
        match read {
            ReadOutcome::End => {
                self.open = false;
            },
            ReadOutcome::Data(more) => {
                let count: usize = more.len();
                let room: usize = if self.bytes.len() < limit {
                    limit - self.bytes.len()
                } else {
                    0
                };
                if count > room {
                    return Err(CommandError::OutputLimit);
                }
                let mut i: usize = 0;
                let ghost before = self.bytes@;
                while i < count
                    invariant
                        i <= count == more@.len(),
                        self.open,
                        self.bytes@ == before + more@.take(i as int),
                    decreases count - i,
                {
                    self.bytes.push(more[i]);
                    assert(more@.take(i + 1) =~= more@.take(i as int).push(more@[i as int]));
                    i += 1;
                }
                assert(more@.take(count as int) =~= more@);
            },
            ReadOutcome::Again => {},
            ReadOutcome::Failed(m) => return Err(CommandError::Io(m)),
        }
        Ok(())
    }
}

/// Both output streams of a running command.
#[derive(Debug)]
pub struct Collector {
    pub policy: Policy,
    pub out: Stream,
    pub err: Stream,
}

/// How a stream takes a read: the stream afterwards, or the refusal.
pub open spec fn drained(open: bool, bytes: Seq<u8>, read: ReadOutcome, limit: usize) -> Result<
    (bool, Seq<u8>),
    CommandError,
> {
    if !open {
        Ok((open, bytes))
    } else {
        match read {
            ReadOutcome::End => Ok((false, bytes)),
            ReadOutcome::Data(more) => if more@.len() > 0 && bytes.len() + more@.len() > limit {
                Err(CommandError::OutputLimit)
            } else {
                Ok((true, bytes + more@))
            },
            ReadOutcome::Again => Ok((true, bytes)),
            ReadOutcome::Failed(m) => Err(CommandError::Io(m)),
        }
    }
}

impl Collector {
    /// Neither stream holds more than the limit.
    pub open spec fn bounded(&self) -> bool {
        self.out.bytes@.len() <= self.policy.max_output_bytes && self.err.bytes@.len()
            <= self.policy.max_output_bytes
    }

    pub fn new(policy: Policy) -> (r: Collector)
        ensures
            r.policy == policy,
            r.out.open && r.out.bytes@ == Seq::<u8>::empty(),
            r.err.open && r.err.bytes@ == Seq::<u8>::empty(),
            r.bounded(),
    {
        Collector { policy, out: Stream::new(), err: Stream::new() }
    }

    /// One poll: the time since the start, and one read of each stream. `true`
    /// once both streams have ended. What is held never exceeds the limit.
    pub fn poll(&mut self, elapsed_ms: u64, out: ReadOutcome, err: ReadOutcome) -> (r: Result<
        bool,
        CommandError,
    >)
        requires
            old(self).bounded(),
        ensures
            final(self).bounded(),
            final(self).policy == old(self).policy,
            ({
                let limit = old(self).policy.max_output_bytes;
                let first = drained(old(self).out.open, old(self).out.bytes@, out, limit);
                let second = drained(old(self).err.open, old(self).err.bytes@, err, limit);
                if elapsed_ms >= old(self).policy.timeout_ms {
                    r == Err::<bool, CommandError>(CommandError::TimedOut)
                } else {
                    match (first, second) {
                        (Err(e), _) => r == Err::<bool, CommandError>(e),
                        (_, Err(e)) => r == Err::<bool, CommandError>(e),
                        (Ok(o), Ok(e)) => r == Ok::<bool, CommandError>(!o.0 && !e.0) && (
                        final(self).out.open,
                        final(self).out.bytes@,
                    ) == o && (final(self).err.open, final(self).err.bytes@) == e,
                    }
                }
            }),
    {
        if elapsed_ms >= self.policy.timeout_ms {
            return Err(CommandError::TimedOut);
        }
        let limit: usize = self.policy.max_output_bytes;
        match self.out.drain(out, limit) {
            Ok(()) => {},
            Err(e) => return Err(e),
        }
        match self.err.drain(err, limit) {
            Ok(()) => {},
            Err(e) => return Err(e),
        }
        assert(old(self).out.bytes@ + Seq::<u8>::empty() =~= old(self).out.bytes@);
        Ok(!self.out.open && !self.err.open)
    }

    /// How long to pause before the next poll: never past the deadline.
    pub fn pause_ms(&self, elapsed_ms: u64) -> (r: u64)
        ensures
            r <= POLL_INTERVAL_MS,
            r == if elapsed_ms >= self.policy.timeout_ms {
                0int
            } else if self.policy.timeout_ms - elapsed_ms < POLL_INTERVAL_MS {
                self.policy.timeout_ms - elapsed_ms
            } else {
                POLL_INTERVAL_MS as int
            },
    {
        pause_within(elapsed_ms, self.policy.timeout_ms)
    }
}

fn pause_within(elapsed_ms: u64, limit_ms: u64) -> (r: u64)
    ensures
        r == if elapsed_ms >= limit_ms {
            0int
        } else if limit_ms - elapsed_ms < POLL_INTERVAL_MS {
            limit_ms - elapsed_ms
        } else {
            POLL_INTERVAL_MS as int
        },
{
    if elapsed_ms >= limit_ms {
        0
    } else if limit_ms - elapsed_ms < POLL_INTERVAL_MS {
        limit_ms - elapsed_ms
    } else {
        POLL_INTERVAL_MS
    }
}

// ---------- the end of a command ----------

/// How a child ended, as the kernel classifies it.
#[derive(Debug, Clone, Copy, PartialEq, Eq, Structural)]
pub enum WaitCode {
    Exited,
    Killed,
    Dumped,
    Other,
}

/// The wait status of a child that ended with an exit code or a signal.
pub fn exited_status(code: WaitCode, status: u8) -> (r: Result<i32, CommandError>)
    ensures
        match code {
            WaitCode::Exited => r == Ok::<i32, CommandError>((status as int * 256) as i32),
            WaitCode::Killed => r == Ok::<i32, CommandError>(status as i32),
            WaitCode::Dumped => r == Ok::<i32, CommandError>((status | 0x80) as i32),
            WaitCode::Other => r == Err::<i32, CommandError>(CommandError::WaitStatus),
        },
{
    match code {
        WaitCode::Exited => Ok(status as i32 * 256),
        WaitCode::Killed => Ok(status as i32),
        WaitCode::Dumped => Ok((status | 0x80) as i32),
        WaitCode::Other => Err(CommandError::WaitStatus),
    }
}

/// What to do with the process group of a command.
#[derive(Debug, Clone, Copy, PartialEq, Eq, Structural)]
pub enum Ending {
    /// Leave it: a command may have left a daemon running on purpose.
    Leave,
    Terminate,
}

/// A command that succeeded is left alone; any other is cleaned up after.
pub fn ending(collected: &Result<i32, CommandError>) -> (r: Ending)
    ensures
        r == match *collected {
            Ok(status) => if status == 0 {
                Ending::Leave
            } else {
                Ending::Terminate
            },
            Err(_) => Ending::Terminate,
        },
{
    match collected {
        Ok(status) => if *status == 0 {
            Ending::Leave
        } else {
            Ending::Terminate
        },
        Err(_) => Ending::Terminate,
    }
}

/// The outcome of a command. `settled` tells whether a successful command could
/// be reaped, or the group of any other be cleaned up in time.
pub fn outcome(collected: Result<i32, CommandError>, settled: bool) -> (r: Result<
    i32,
    CommandError,
>)
    ensures
        r == if settled {
            collected
        } else if collected == Ok::<i32, CommandError>(0) {
            Err(CommandError::StatusLost)
        } else {
            Err(CommandError::Cleanup)
        },
{
    if settled {
        return collected;
    }
    match collected {
        Ok(status) => if status == 0 {
            Err(CommandError::StatusLost)
        } else {
            Err(CommandError::Cleanup)
        },
        Err(_) => Err(CommandError::Cleanup),
    }
}

/// What became of a signal to the process group.
#[derive(Debug, Clone, Copy, PartialEq, Eq, Structural)]
pub enum Signalled {
    Sent,
    /// There is no such group any more.
    NoGroup,
    Failed,
}

/// Whether the cleanup may go on after a signal.
pub fn may_go_on(signalled: Signalled) -> (r: bool)
    ensures
        r == (signalled != Signalled::Failed),
{
    match signalled {
        Signalled::Failed => false,
        _ => true,
    }
}

/// What an attempt to reap a member of the group came to.
#[derive(Debug, Clone, Copy, PartialEq, Eq, Structural)]
pub enum Reaped {
    /// One was reaped.
    One,
    /// None has ended yet.
    Nothing,
    Interrupted,
    /// There is nothing left to reap; whether the group is gone.
    NoChildren { gone: bool },
    Failed,
}

/// What to do after an attempt to reap.
#[derive(Debug, Clone, Copy, PartialEq, Eq, Structural)]
pub enum Reaping {
    /// The cleanup is over, cleanly or not.
    Done(bool),
    /// Try again after a pause.
    Again { pause_ms: u64 },
}

/// Every attempt counts against the time limit, so that the cleanup never waits
/// forever for a task that outlives its signal, nor claims to have reaped it.
pub fn reap(policy: Policy, reaped: Reaped, elapsed_ms: u64) -> (r: Reaping)
    ensures
        match reaped {
            Reaped::NoChildren { gone } => r == Reaping::Done(gone),
            Reaped::Failed => r == Reaping::Done(false),
            _ => if elapsed_ms >= policy.reap_timeout_ms {
                r == Reaping::Done(false)
            } else {
                r matches Reaping::Again { pause_ms } && pause_ms == if reaped == Reaped::One {
                    0int
                } else if policy.reap_timeout_ms - elapsed_ms < POLL_INTERVAL_MS {
                    policy.reap_timeout_ms - elapsed_ms
                } else {
                    POLL_INTERVAL_MS as int
                }
            },
        },
{
    match reaped {
        Reaped::NoChildren { gone } => Reaping::Done(gone),
        Reaped::Failed => Reaping::Done(false),
        _ => {
            if elapsed_ms >= policy.reap_timeout_ms {
                return Reaping::Done(false);
            }
            match reaped {
                Reaped::One => Reaping::Again { pause_ms: 0 },
                _ => Reaping::Again { pause_ms: pause_within(elapsed_ms, policy.reap_timeout_ms) },
            }
        },
    }
}

// ---------- laws ----------

/// A clean exit is the only status that counts as a success.
pub proof fn only_a_clean_exit_is_a_success(code: WaitCode, status: u8)
    requires
        code != WaitCode::Other,
        code == WaitCode::Killed ==> status != 0,
    ensures
        ({
            let raw = match code {
                WaitCode::Exited => status as int * 256,
                WaitCode::Killed => status as int,
                _ => (status | 0x80) as int,
            };
            raw == 0 <==> code == WaitCode::Exited && status == 0
        }),
{
    assert(status | 0x80 != 0) by (bit_vector);
}

/// What a command writes is kept in its order as long as it is not too much; a
/// stream that has ended takes nothing more.
pub proof fn output_is_kept_in_order(bytes: Seq<u8>, more: Vec<u8>, limit: usize, why: String)
    ensures
        bytes.len() + more@.len() <= limit ==> drained(true, bytes, ReadOutcome::Data(more), limit)
            == Ok::<(bool, Seq<u8>), CommandError>((true, bytes + more@)),
        bytes.len() + more@.len() > limit && more@.len() > 0 ==> drained(
            true,
            bytes,
            ReadOutcome::Data(more),
            limit,
        ) == Err::<(bool, Seq<u8>), CommandError>(CommandError::OutputLimit),
        drained(true, bytes, ReadOutcome::End, limit) == Ok::<(bool, Seq<u8>), CommandError>(
            (false, bytes),
        ),
        drained(true, bytes, ReadOutcome::Again, limit) == Ok::<(bool, Seq<u8>), CommandError>(
            (true, bytes),
        ),
        drained(true, bytes, ReadOutcome::Failed(why), limit) == Err::<
            (bool, Seq<u8>),
            CommandError,
        >(CommandError::Io(why)),
        drained(false, bytes, ReadOutcome::Data(more), limit) == Ok::<
            (bool, Seq<u8>),
            CommandError,
        >((false, bytes)),
{
}

} // verus!
