//! The limits of external commands.

use maki::command::{
    ending, exited_status, may_go_on, outcome, reap, Collector, CommandError, Ending, Policy,
    ReadOutcome, Reaped, Reaping, Signalled, WaitCode, MAX_OUTPUT_BYTES,
};

fn policy() -> Policy {
    Policy {
        timeout_ms: 150,
        terminate_grace_ms: 50,
        reap_timeout_ms: 500,
        max_output_bytes: MAX_OUTPUT_BYTES,
    }
}

fn data(n: usize) -> ReadOutcome {
    ReadOutcome::Data(vec![b'x'; n])
}

#[test]
fn a_command_that_keeps_a_stream_open_runs_into_its_deadline() {
    let mut collector = Collector::new(policy());
    assert_eq!(collector.poll(0, ReadOutcome::End, ReadOutcome::Again), Ok(false));
    assert_eq!(collector.poll(149, ReadOutcome::Again, ReadOutcome::Again), Ok(false));
    let late = collector.poll(150, ReadOutcome::End, ReadOutcome::End);
    assert_eq!(late, Err(CommandError::TimedOut));
    assert_eq!(collector.pause_ms(0), 5);
    assert_eq!(collector.pause_ms(148), 2);
    assert_eq!(collector.pause_ms(200), 0);
}

#[test]
fn neither_stream_may_exceed_the_output_limit() {
    let mut collector = Collector::new(policy());
    assert_eq!(collector.poll(0, data(MAX_OUTPUT_BYTES), ReadOutcome::Again), Ok(false));
    let more = collector.poll(1, data(1), ReadOutcome::Again);
    assert_eq!(more, Err(CommandError::OutputLimit));
    assert_eq!(collector.out.bytes.len(), MAX_OUTPUT_BYTES);
    let mut collector = Collector::new(policy());
    let more = collector.poll(0, ReadOutcome::Again, data(MAX_OUTPUT_BYTES + 1));
    assert_eq!(more, Err(CommandError::OutputLimit));
    assert!(collector.err.bytes.is_empty());
}

#[test]
fn output_is_kept_in_order_until_both_streams_end() {
    let mut collector = Collector::new(policy());
    collector
        .poll(0, ReadOutcome::Data(b"ab".to_vec()), ReadOutcome::Data(b"1".to_vec()))
        .unwrap();
    collector.poll(1, ReadOutcome::Data(b"c".to_vec()), ReadOutcome::End).unwrap();
    assert_eq!(collector.poll(2, ReadOutcome::End, ReadOutcome::Again), Ok(true));
    assert_eq!(collector.out.bytes, b"abc");
    assert_eq!(collector.err.bytes, b"1");
    let failed = Collector::new(policy()).poll(
        0,
        ReadOutcome::Failed("broken pipe".into()),
        ReadOutcome::Again,
    );
    assert_eq!(failed, Err(CommandError::Io("broken pipe".into())));
}

#[test]
fn statuses_are_put_together_as_the_kernel_does() {
    assert_eq!(exited_status(WaitCode::Exited, 7), Ok(7 << 8));
    assert_eq!(exited_status(WaitCode::Killed, 9), Ok(9));
    assert_eq!(exited_status(WaitCode::Dumped, 6), Ok(6 | 0x80));
    assert_eq!(exited_status(WaitCode::Other, 1), Err(CommandError::WaitStatus));
    assert_eq!(exited_status(WaitCode::Exited, 0), Ok(0));
}

#[test]
fn only_a_success_leaves_its_group_alone() {
    assert_eq!(ending(&Ok(0)), Ending::Leave);
    assert_eq!(ending(&Ok(7 << 8)), Ending::Terminate);
    assert_eq!(ending(&Err(CommandError::TimedOut)), Ending::Terminate);
    assert_eq!(outcome(Ok(0), true), Ok(0));
    assert_eq!(outcome(Ok(0), false), Err(CommandError::StatusLost));
    assert_eq!(outcome(Ok(256), true), Ok(256));
    assert_eq!(outcome(Ok(256), false), Err(CommandError::Cleanup));
    assert_eq!(
        outcome(Err(CommandError::TimedOut), true),
        Err(CommandError::TimedOut)
    );
    assert!(outcome(Err(CommandError::TimedOut), false)
        .unwrap_err()
        .to_string()
        .contains("cleanup did not finish"));
}

#[test]
fn the_cleanup_is_bounded_and_never_claims_too_much() {
    assert!(may_go_on(Signalled::Sent) && may_go_on(Signalled::NoGroup));
    assert!(!may_go_on(Signalled::Failed));
    assert_eq!(reap(policy(), Reaped::NoChildren { gone: true }, 0), Reaping::Done(true));
    assert_eq!(reap(policy(), Reaped::NoChildren { gone: false }, 0), Reaping::Done(false));
    assert_eq!(reap(policy(), Reaped::Failed, 0), Reaping::Done(false));
    assert_eq!(reap(policy(), Reaped::One, 0), Reaping::Again { pause_ms: 0 });
    assert_eq!(reap(policy(), Reaped::Nothing, 498), Reaping::Again { pause_ms: 2 });
    assert_eq!(reap(policy(), Reaped::Interrupted, 500), Reaping::Done(false));
    assert_eq!(reap(policy(), Reaped::One, 500), Reaping::Done(false));
}

#[test]
fn steps_get_two_minutes_and_probes_a_quarter_of_one() {
    assert_eq!(Policy::step().timeout_ms, 120_000);
    assert_eq!(Policy::probe().timeout_ms, 15_000);
    assert_eq!(Policy::probe().max_output_bytes, 64 * 1024);
}
