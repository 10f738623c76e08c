//! The decisions of an encrypted network volume's storage helper, and the
//! simulations that its data path is tested with.
//!
//! The helper connects an NBD device to a volume's server, verifies and
//! activates the LVM group on it, mounts its XFS, and undoes all of that. It
//! runs with root's rights and must never touch anything but the attachment that
//! it was configured for:
//!
//! - [`config`] resolves a configuration into a checked request, [`plan`] turns
//!   a request into steps, and [`exec`] into command lines;
//! - [`probe`], [`sysfs`], [`detach`], [`recover`], [`lvm_preflight`] and
//!   [`verify`] judge what the kernel and the utilities report;
//! - [`state`] says which stored records are trusted;
//! - [`run`] is the control of a run, [`executor`] its data; [`recovery`] cleans
//!   up after a server that died, and [`workload_verify`] lets a workload start;
//! - [`command`] bounds what an external command may take and write.
//!
//! The simulations:
//!
//! - [`model`] is the durability oracle and [`crash_backing`] a disk that may
//!   crash; [`oracle`] runs one against the other;
//! - [`fake_provider`] is a deterministic crypto provider with faults;
//! - [`clock`], [`sched`] and [`failpoints`] put time, interleaving and failures
//!   under a test's control, and [`http_chaos`] what a remote server answers.
//!
//! [`table`] and [`text`] are what the rest is written with, [`chance`] is where
//! random numbers come from.

pub mod chance;
pub mod clock;
pub mod command;
pub mod config;
pub mod crash_backing;
pub mod detach;
pub mod exec;
pub mod executor;
pub mod failpoints;
pub mod fake_provider;
pub mod http_chaos;
pub mod lvm_preflight;
pub mod model;
pub mod oracle;
pub mod plan;
pub mod probe;
pub mod recover;
pub mod recovery;
pub mod run;
pub mod sched;
pub mod state;
pub mod sysfs;
pub mod table;
pub mod text;
pub mod verify;
pub mod workload_verify;
