# maki

The verified core of a storage helper for encrypted network volumes, and of the
simulations that the volumes' data path is tested with.

* `src/` is the library. It performs no I/O: every function takes what was
  observed and says what follows. The contracts are proved with Verus.
* `app/` performs the I/O: it reads the kernel's files, runs programs, keeps the
  attach records, drives futures and sockets, and asks the library what to do.
* `tests/` runs the library on concrete values.

## The helper

A run is a conversation. `Executor::start` takes a plan and the stored record;
each `Executor::resume` takes the answer to the last action and returns the next
one, until it says stop. The control (`run`) is a pure state machine over a small
alphabet, so what holds of every run is stated and proved over its traces: a rollback
or a detach takes down nothing that was not seen to belong to the attachment, no step
disconnects a device unless the kernel has just shown the recorded backend, the record
is durable before anything is connected, a filesystem is mounted only once it was identified
and written to only once its device was verified, a growth that is tried again ends
at the size it first aimed at, a rollback stops at the first step that fails, and
every run ends. `recovery` and `workload_verify` are built in the same way.

What the kernel shows is taken as a snapshot (`sysfs::BlockTree`). An attribute
that could not be read is absent, and absence is never taken for an answer.

## The simulations

`crash_backing` is a disk on which writes are volatile until the file is synced and
names until their directory is. A crash keeps or loses each volatile operation, as a
`Fate` says; `crash` draws the fate, and what is proved holds of every fate.
`oracle::play_sequence` plays exactly the operations that its seed draws, and is proved
to find no violation.

## What is trusted

The items marked `external_body` or `assume_specification` in `chance`,
`fake_provider`, `http_chaos` and `text` state what is believed of the `rand`,
`rand_chacha`, `crc32fast` and `serde_json` crates and of the standard library.
