use terminal::pacing::{FlushReason, FramePacing};

#[test]
fn draining_reads_share_the_capture_interval() {
    let mut p = FramePacing::new();
    assert!(p.on_flush(FlushReason::Drained, false, 100));
    assert!(!p.on_flush(FlushReason::Saturated, false, 103));
    assert!(p.snapshot_pending());
    assert_eq!(p.pending_timeout(103), Some(2));
    assert!(p.on_flush(FlushReason::Drained, false, 105));
    assert!(!p.snapshot_pending());
    assert_eq!(p.pending_timeout(105), None);
}

#[test]
fn commands_and_exit_capture_at_once() {
    let mut p = FramePacing::new();
    assert!(p.on_flush(FlushReason::Drained, false, 10));
    assert!(p.on_flush(FlushReason::Command, false, 11));
    assert!(p.on_flush(FlushReason::Exit, false, 11));
}

#[test]
fn synchronized_update_defers_then_commits_at_its_end() {
    let mut p = FramePacing::new();
    assert!(p.on_flush(FlushReason::Drained, false, 0));
    // Inside the update nothing is captured, not even for a command.
    assert!(!p.on_flush(FlushReason::Command, true, 1));
    assert_eq!(p.pending_timeout(21), Some(80));
    assert!(!p.sync_output_timed_out(100));
    assert!(p.sync_output_timed_out(101));
    // The update ends right after the last capture: still committed.
    assert!(p.on_flush(FlushReason::Saturated, false, 2));
}

#[test]
fn a_first_deferred_capture_retries_at_once() {
    let mut p = FramePacing::new();
    assert!(!p.on_flush(FlushReason::Drained, true, 7));
    assert_eq!(p.pending_timeout(200), Some(0));
}
