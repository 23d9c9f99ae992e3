use resc_client::verdict::VerdictInputs;

fn passing() -> VerdictInputs {
    VerdictInputs {
        frames_accepted: 10,
        frames_acked: 10,
        frames_emitted: 10,
        frames_submitted: 10,
        unknown_pts: 0,
        duplicates: 0,
        reorders: 0,
        skips: 0,
        ack_order_violations: 0,
        protocol_errors: 0,
        fatal_decoder_errors: 0,
        clean_eof_tail_drain: true,
        outstanding_at_exit: 0,
    }
}

#[test]
fn passing_baseline_passes() {
    assert!(passing().evaluate());
}

#[test]
fn accepted_ne_acked_fails() {
    let mut v = passing();
    v.frames_acked = 9;
    assert!(!v.evaluate());
}

#[test]
fn emitted_ne_submitted_fails() {
    let mut v = passing();
    v.frames_emitted = 9;
    assert!(!v.evaluate());
}

#[test]
fn nonzero_unknown_pts_fails() {
    let mut v = passing();
    v.unknown_pts = 1;
    assert!(!v.evaluate());
}

#[test]
fn zero_frames_fails_even_with_every_other_term_clean() {
    let mut v = passing();
    v.frames_accepted = 0;
    v.frames_acked = 0;
    v.frames_emitted = 0;
    v.frames_submitted = 0;
    assert!(!v.evaluate());
}

#[test]
fn nonzero_duplicates_fails() {
    let mut v = passing();
    v.duplicates = 1;
    assert!(!v.evaluate());
}

#[test]
fn nonzero_reorders_fails() {
    let mut v = passing();
    v.reorders = 1;
    assert!(!v.evaluate());
}

#[test]
fn nonzero_skips_fails() {
    let mut v = passing();
    v.skips = 1;
    assert!(!v.evaluate());
}

#[test]
fn nonzero_ack_order_violations_fails() {
    let mut v = passing();
    v.ack_order_violations = 1;
    assert!(!v.evaluate());
}

#[test]
fn nonzero_protocol_errors_fails() {
    let mut v = passing();
    v.protocol_errors = 1;
    assert!(!v.evaluate());
}

#[test]
fn nonzero_fatal_decoder_errors_fails() {
    let mut v = passing();
    v.fatal_decoder_errors = 1;
    assert!(!v.evaluate());
}

#[test]
fn unclean_eof_tail_drain_fails() {
    let mut v = passing();
    v.clean_eof_tail_drain = false;
    assert!(!v.evaluate());
}

#[test]
fn nonzero_outstanding_at_exit_fails() {
    let mut v = passing();
    v.outstanding_at_exit = 1;
    assert!(!v.evaluate());
}
