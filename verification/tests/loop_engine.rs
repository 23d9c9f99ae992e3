use resc_client::loop_engine::{CallLog, FrameBudget, 
    drain_fully, flush_tail, submit_with_retry, AttemptRecord, DecoderLoopBackend, FrameOutcome, SendOutcome,
};
use std::collections::VecDeque;

/// A scriptable backend: one queue of outcomes per method, consumed in call
/// order, and a log of every `send_packet` call.
#[derive(Default)]
struct MockDecoder {
    send_script: VecDeque<Result<SendOutcome, String>>,
    frame_script: VecDeque<Result<FrameOutcome, String>>,
    eof_script: VecDeque<Result<SendOutcome, String>>,
    send_calls: Vec<(i64, Vec<u8>)>,
    receive_calls: u32,
    eof_calls: u32,
}

impl MockDecoder {
    fn new() -> Self {
        Self::default()
    }

    fn script_send(mut self, outcomes: impl IntoIterator<Item = Result<SendOutcome, String>>) -> Self {
        self.send_script.extend(outcomes);
        self
    }

    fn script_frames(mut self, outcomes: impl IntoIterator<Item = Result<FrameOutcome, String>>) -> Self {
        self.frame_script.extend(outcomes);
        self
    }

    fn script_eof(mut self, outcomes: impl IntoIterator<Item = Result<SendOutcome, String>>) -> Self {
        self.eof_script.extend(outcomes);
        self
    }
}

impl DecoderLoopBackend for MockDecoder {
    fn calls(&self) -> CallLog {
        unreachable!("specification item: the verifier reads it, nothing calls it")
    }

    fn ready_frames(&self) -> FrameBudget {
        unreachable!("specification item: the verifier reads it, nothing calls it")
    }

    fn send_packet(&mut self, ordinal: i64, data: &[u8]) -> Result<SendOutcome, String> {
        self.send_calls.push((ordinal, data.to_vec()));
        self.send_script
            .pop_front()
            .unwrap_or_else(|| panic!("MockDecoder: send_packet script exhausted at call #{}", self.send_calls.len()))
    }

    fn receive_frame(&mut self) -> Result<FrameOutcome, String> {
        self.receive_calls += 1;
        self.frame_script
            .pop_front()
            .unwrap_or_else(|| panic!("MockDecoder: receive_frame script exhausted at call #{}", self.receive_calls))
    }

    fn send_eof(&mut self) -> Result<SendOutcome, String> {
        self.eof_calls += 1;
        self.eof_script
            .pop_front()
            .unwrap_or_else(|| panic!("MockDecoder: send_eof script exhausted at call #{}", self.eof_calls))
    }
}

#[test]
fn again_then_accept_retains_and_resubmits_exact_packet_exactly_once() {
    let mut mock = MockDecoder::new()
        .script_send([Ok(SendOutcome::Again), Ok(SendOutcome::Accepted)])
        .script_frames([Ok(FrameOutcome::Empty)]);

    let record = submit_with_retry(&mut mock, 7, b"payload-7", 64).unwrap();

    assert_eq!(mock.send_calls, vec![(7, b"payload-7".to_vec()), (7, b"payload-7".to_vec())]);
    assert_eq!(record.attempts, vec![AttemptRecord { again: true }, AttemptRecord { again: false }]);
    assert_eq!(record.drains, vec![Vec::<Option<i64>>::new()]);
}

#[test]
fn zero_output_packet_is_recovered_by_a_later_drain() {
    let mut mock = MockDecoder::new()
        .script_send([Ok(SendOutcome::Accepted), Ok(SendOutcome::Accepted)])
        .script_frames([
            Ok(FrameOutcome::Empty),
            Ok(FrameOutcome::Frame(Some(1))),
            Ok(FrameOutcome::Empty),
        ]);

    submit_with_retry(&mut mock, 1, b"p1", 64).unwrap();
    let first_drain = drain_fully(&mut mock).unwrap();
    assert!(first_drain.is_empty(), "packet 1 must be accepted with zero output on its own drain");

    submit_with_retry(&mut mock, 2, b"p2", 64).unwrap();
    let second_drain = drain_fully(&mut mock).unwrap();
    assert_eq!(second_drain, vec![Some(1)], "packet 1's frame recovered on packet 2's drain");
}

#[test]
fn multi_output_drain_emits_distinct_ordinals_in_one_drain() {
    let mut mock = MockDecoder::new()
        .script_send([Ok(SendOutcome::Accepted)])
        .script_frames([
            Ok(FrameOutcome::Frame(Some(1))),
            Ok(FrameOutcome::Frame(Some(2))),
            Ok(FrameOutcome::Frame(Some(3))),
            Ok(FrameOutcome::Empty),
        ]);

    submit_with_retry(&mut mock, 9, b"p9", 64).unwrap();
    let drained = drain_fully(&mut mock).unwrap();
    assert_eq!(drained, vec![Some(1), Some(2), Some(3)]);
}

#[test]
fn tail_flush_emits_remainder_with_emitted_eq_submitted() {
    let mut mock = MockDecoder::new()
        .script_send([Ok(SendOutcome::Accepted), Ok(SendOutcome::Accepted)])
        .script_frames([Ok(FrameOutcome::Empty), Ok(FrameOutcome::Empty)])
        .script_eof([Ok(SendOutcome::Accepted)]);

    submit_with_retry(&mut mock, 1, b"p1", 64).unwrap();
    drain_fully(&mut mock).unwrap();
    submit_with_retry(&mut mock, 2, b"p2", 64).unwrap();
    drain_fully(&mut mock).unwrap();

    mock.frame_script.extend([
        Ok(FrameOutcome::Frame(Some(1))),
        Ok(FrameOutcome::Frame(Some(2))),
        Ok(FrameOutcome::Empty),
    ]);

    let submitted = 2u64;
    let tail = flush_tail(&mut mock, 64).unwrap();
    assert_eq!(tail.recovered, vec![Some(1), Some(2)]);
    assert_eq!(tail.recovered.len() as u64, submitted, "emitted == submitted after tail flush");
    assert_eq!(tail.eagain_count, 0, "send_eof was accepted first try");
}

#[test]
fn double_eagain_on_resubmit_handled_without_loss_or_duplication() {
    let mut mock = MockDecoder::new()
        .script_send([Ok(SendOutcome::Again), Ok(SendOutcome::Again), Ok(SendOutcome::Accepted)])
        .script_frames([Ok(FrameOutcome::Empty), Ok(FrameOutcome::Empty)]);

    let record = submit_with_retry(&mut mock, 5, b"p5", 64).unwrap();

    assert_eq!(mock.send_calls, vec![(5, b"p5".to_vec()); 3]);
    let accepted = record.attempts.iter().filter(|a| !a.again).count();
    let agains = record.attempts.iter().filter(|a| a.again).count();
    assert_eq!(accepted, 1, "accepted exactly once despite two EAGAINs");
    assert_eq!(agains, 2);
    assert_eq!(record.drains.len(), 2, "one drain per EAGAIN, no more");
}

#[test]
fn send_packet_error_propagates() {
    let mut mock = MockDecoder::new().script_send([Err("native send failure".to_string())]);
    let err = submit_with_retry(&mut mock, 1, b"p1", 64).unwrap_err();
    assert!(err.contains("native send failure"));
}

#[test]
fn receive_frame_error_propagates_during_drain() {
    let mut mock = MockDecoder::new()
        .script_send([Ok(SendOutcome::Accepted)])
        .script_frames([Err("native receive failure".to_string())]);
    submit_with_retry(&mut mock, 1, b"p1", 64).unwrap();
    let err = drain_fully(&mut mock).unwrap_err();
    assert!(err.contains("native receive failure"));
}

#[test]
fn send_eof_error_propagates() {
    let mut mock = MockDecoder::new().script_eof([Err("native flush failure".to_string())]);
    let err = flush_tail(&mut mock, 64).unwrap_err();
    assert!(err.contains("native flush failure"));
}

#[test]
fn eagain_exceeding_max_attempts_is_a_fatal_error_not_an_infinite_loop() {
    let mut mock = MockDecoder::new()
        .script_send([Ok(SendOutcome::Again), Ok(SendOutcome::Again), Ok(SendOutcome::Again)])
        .script_frames([Ok(FrameOutcome::Empty), Ok(FrameOutcome::Empty), Ok(FrameOutcome::Empty)]);
    let err = submit_with_retry(&mut mock, 1, b"p1", 2).unwrap_err();
    assert!(err.contains("did not converge"));
}

#[test]
fn submit_limit_message_is_exact() {
    let mut mock = MockDecoder::new()
        .script_send([Ok(SendOutcome::Again), Ok(SendOutcome::Again)])
        .script_frames([Ok(FrameOutcome::Empty)]);
    let err = submit_with_retry(&mut mock, -42, b"p", 1).unwrap_err();
    assert_eq!(err, "send_packet EAGAIN did not converge after 2 attempts for ordinal -42");
    assert_eq!(mock.send_calls.len(), 2);
}

#[test]
fn zero_attempt_budget_fails_on_first_again() {
    let mut mock = MockDecoder::new().script_send([Ok(SendOutcome::Again)]);
    let err = submit_with_retry(&mut mock, 3, b"p", 0).unwrap_err();
    assert_eq!(err, "send_packet EAGAIN did not converge after 1 attempts for ordinal 3");
    assert_eq!(mock.receive_calls, 0);
}

#[test]
fn eof_retry_folds_intermediate_drains_into_recovered() {
    let mut mock = MockDecoder::new()
        .script_eof([Ok(SendOutcome::Again), Ok(SendOutcome::Accepted)])
        .script_frames([
            Ok(FrameOutcome::Frame(Some(4))),
            Ok(FrameOutcome::Empty),
            Ok(FrameOutcome::Frame(None)),
            Ok(FrameOutcome::Frame(Some(5))),
            Ok(FrameOutcome::Empty),
        ]);
    let tail = flush_tail(&mut mock, 8).unwrap();
    assert_eq!(tail.recovered, vec![Some(4), None, Some(5)]);
    assert_eq!(tail.eagain_count, 1);
}

#[test]
fn eof_limit_message_is_exact() {
    let mut mock = MockDecoder::new()
        .script_eof([Ok(SendOutcome::Again), Ok(SendOutcome::Again)])
        .script_frames([Ok(FrameOutcome::Empty)]);
    let err = flush_tail(&mut mock, 1).unwrap_err();
    assert_eq!(err, "send_eof EAGAIN did not converge after 2 attempts");
}

#[test]
fn tail_drain_error_propagates() {
    let mut mock = MockDecoder::new()
        .script_eof([Ok(SendOutcome::Accepted)])
        .script_frames([Ok(FrameOutcome::Frame(Some(1))), Err("tail failure".to_string())]);
    let err = flush_tail(&mut mock, 4).unwrap_err();
    assert_eq!(err, "tail failure");
}
