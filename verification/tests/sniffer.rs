use terminal::osc133::PromptRegion;
use terminal::sniffer::{CommandCapture, PromptSniffer, SnifferEvent};

/// Every forwarded (region, bytes) segment from feeding `chunks` in order
/// to one sniffer.
fn run(chunks: &[&[u8]]) -> Vec<(PromptRegion, Vec<u8>)> {
    let mut s = PromptSniffer::default();
    let mut out = Vec::new();
    for c in chunks {
        for e in s.feed(c) {
            if let SnifferEvent::Segment { region, bytes, .. } = e {
                out.push((region, bytes));
            }
        }
    }
    out
}

fn run_with_trust(chunks: &[&[u8]]) -> Vec<(PromptRegion, bool, Vec<u8>)> {
    let mut s = PromptSniffer::default();
    let mut out = Vec::new();
    for c in chunks {
        for e in s.feed(c) {
            if let SnifferEvent::Segment { region, trusted, bytes } = e {
                out.push((region, trusted, bytes));
            }
        }
    }
    out
}

/// What reaches the engine: segments plus mark bytes.
fn engine_stream(chunks: &[&[u8]]) -> Vec<u8> {
    let mut s = PromptSniffer::default();
    let mut out = Vec::new();
    for c in chunks {
        for e in s.feed(c) {
            match e {
                SnifferEvent::Segment { bytes, .. } => out.extend_from_slice(&bytes),
                SnifferEvent::Mark(m) => out.extend_from_slice(&m.bytes),
            }
        }
    }
    out
}

fn feed_segments<F: FnMut(PromptRegion, bool, &[u8])>(s: &mut PromptSniffer, input: &[u8], mut f: F) {
    for e in s.feed(input) {
        if let SnifferEvent::Segment { region, trusted, bytes } = e {
            f(region, trusted, &bytes);
        }
    }
}

/// The completed-command captures of one read, in stream order.
fn feed_commands(s: &mut PromptSniffer, input: &[u8]) -> Vec<CommandCapture> {
    let mut out = Vec::new();
    for e in s.feed(input) {
        if let SnifferEvent::Mark(m) = e {
            if let Some(c) = m.command_finished {
                out.push(c);
            }
        }
    }
    out
}

/// A sniffer with boundary trust established by the synthetic prime.
fn primed() -> PromptSniffer {
    let mut s = PromptSniffer::default();
    let cmds = feed_commands(
        &mut s,
        b"\x1b]133;A\x07\x1b]133;B\x07\x1b]133;C\x07\x1b]133;D;0\x07",
    );
    assert!(s.boundary_trusted());
    assert!(cmds.is_empty(), "the trust-establishing ;D must not produce a block");
    s
}

#[test]
fn classifies_full_prompt_command_output_cycle() {
    let stream = b"\x1b]133;A\x07PS> \x1b]133;B\x07ls\r\n\x1b]133;C\x07out\r\n\x1b]133;D;0\x07";
    let segs = run(&[stream]);
    assert_eq!(
        segs,
        vec![
            (PromptRegion::Prompt, b"PS> ".to_vec()),
            (PromptRegion::Command, b"ls\r\n".to_vec()),
            (PromptRegion::Output, b"out\r\n".to_vec()),
        ]
    );
}

#[test]
fn marks_are_forwarded_to_engine() {
    let stream = b"\x1b]133;A\x07PS> \x1b]133;B\x07ls\x1b]133;C\x07out\x1b]133;D\x07";
    assert_eq!(engine_stream(&[stream]), stream);
}

#[test]
fn bytes_before_first_mark_pass_through_as_none() {
    let segs = run(&[b"banner\x1b]133;A\x07prompt"]);
    assert_eq!(segs[0], (PromptRegion::Outside, b"banner".to_vec()));
    assert_eq!(segs[1], (PromptRegion::Prompt, b"prompt".to_vec()));
}

#[test]
fn accepts_st_terminator() {
    let segs = run(&[b"\x1b]133;A\x1b\\done"]);
    assert_eq!(segs, vec![(PromptRegion::Prompt, b"done".to_vec())]);
}

#[test]
fn ordinary_escape_sequences_are_not_marks() {
    let sgr = b"\x1b]133;C\x07\x1b[31mred\x1b[0m";
    let out = engine_stream(&[sgr]);
    assert_eq!(out, sgr);
}

#[test]
fn mark_split_across_two_reads_is_carried() {
    let segs = run(&[b"\x1b]133;A\x07PS> \x1b]133;B\x07cmd\x1b]13", b"3;C\x07output"]);
    assert_eq!(
        segs,
        vec![
            (PromptRegion::Prompt, b"PS> ".to_vec()),
            (PromptRegion::Command, b"cmd".to_vec()),
            (PromptRegion::Output, b"output".to_vec()),
        ]
    );
}

#[test]
fn region_persists_across_reads_without_marks() {
    let segs = run(&[b"\x1b]133;A\x07PS> \x1b]133;B\x07cmd\x1b]133;C\x07first", b"second"]);
    assert_eq!(
        segs,
        vec![
            (PromptRegion::Prompt, b"PS> ".to_vec()),
            (PromptRegion::Command, b"cmd".to_vec()),
            (PromptRegion::Output, b"first".to_vec()),
            (PromptRegion::Output, b"second".to_vec()),
        ]
    );
}

#[test]
fn boundary_trust_follows_ordered_prompt_command_output_cycle() {
    let stream = b"\x1b]133;A\x07PS1> \x1b]133;B\x07first\r\n\x1b]133;C\x07out1\r\n\x1b]133;D;0\x07\x1b]133;A\x07PS2> \x1b]133;B\x07second\r\n\x1b]133;C\x07out2\r\n\x1b]133;D;0\x07";
    let segs = run_with_trust(&[stream]);
    assert_eq!(
        segs,
        vec![
            (PromptRegion::Prompt, false, b"PS1> ".to_vec()),
            (PromptRegion::Command, false, b"first\r\n".to_vec()),
            (PromptRegion::Output, false, b"out1\r\n".to_vec()),
            (PromptRegion::Prompt, true, b"PS2> ".to_vec()),
            (PromptRegion::Command, true, b"second\r\n".to_vec()),
            (PromptRegion::Output, true, b"out2\r\n".to_vec()),
        ]
    );
}

#[test]
fn startup_synthetic_cycle_grants_trust_at_first_prompt() {
    let stream = b"banner\r\n\x1b]133;A\x07\x1b]133;B\x07\x1b]133;C\x07\x1b]133;D\x07\x1b]133;A\x07PS> \x1b]133;B\x07";
    let segs = run_with_trust(&[stream]);
    assert_eq!(
        segs,
        vec![
            (PromptRegion::Outside, false, b"banner\r\n".to_vec()),
            (PromptRegion::Prompt, true, b"PS> ".to_vec()),
        ]
    );
    assert_eq!(engine_stream(&[stream]), stream);
}

#[test]
fn prompt_without_completed_lifecycle_is_not_trusted() {
    let segs = run_with_trust(&[b"\x1b]133;A\x07PS> \x1b]133;B\x07cmd"]);
    assert_eq!(
        segs,
        vec![
            (PromptRegion::Prompt, false, b"PS> ".to_vec()),
            (PromptRegion::Command, false, b"cmd".to_vec()),
        ]
    );
    let stream = b"\x1b]133;A\x07PS> \x1b]133;B\x07cmd";
    assert_eq!(engine_stream(&[stream]), stream);
}

#[test]
fn malformed_lifecycle_forwards_everything_until_completed_lifecycle() {
    let bad_then_good = b"banner\x1b]133;B\x07visible\x1b]133;C\x07output\x1b]133;D\x07\x1b]133;A\x07PS> \x1b]133;B\x07cmd\x1b]133;C\x07ok";
    assert_eq!(engine_stream(&[bad_then_good]), bad_then_good);
}

#[test]
fn untrusted_stream_forwards_prompt_and_command() {
    let stream = b"\x1b]133;B\x07PS> cmd\x1b]133;C\x07out";
    assert_eq!(engine_stream(&[stream]), stream);
}

#[test]
fn invalid_transition_drops_boundary_trust() {
    let mut s = PromptSniffer::default();
    s.feed(b"\x1b]133;A\x07PS> \x1b]133;B\x07\x1b]133;B\x07");
    assert!(!s.boundary_trusted());
}

#[test]
fn split_marker_keeps_trust_when_lifecycle_is_valid() {
    let segs = run_with_trust(&[
        b"\x1b]133;A\x07old> \x1b]133;B\x07warm\x1b]133;C\x07up\x1b]133;D\x07",
        b"\x1b]133;A\x07PS> \x1b]13",
        b"3;B\x07cmd\x1b]133;C\x07out",
    ]);
    assert_eq!(
        segs,
        vec![
            (PromptRegion::Prompt, false, b"old> ".to_vec()),
            (PromptRegion::Command, false, b"warm".to_vec()),
            (PromptRegion::Output, false, b"up".to_vec()),
            (PromptRegion::Prompt, true, b"PS> ".to_vec()),
            (PromptRegion::Command, true, b"cmd".to_vec()),
            (PromptRegion::Output, true, b"out".to_vec()),
        ]
    );
}

#[test]
fn malformed_carried_mark_clears_trust_before_forwarding() {
    let mut s = PromptSniffer::default();
    let mut out = Vec::new();
    s.feed(b"\x1b]133;A\x07p\x1b]133;B\x07c\x1b]133;C\x07o\x1b]133;D\x07\x1b]133;A\x07");
    assert!(s.boundary_trusted());
    feed_segments(&mut s, b"\x1b]133;", |r, trusted, b| {
        if !trusted || matches!(r, PromptRegion::Output | PromptRegion::Outside) {
            out.extend_from_slice(b);
        }
    });
    feed_segments(&mut s, b"this-is-too-long-for-a-valid-mark", |r, trusted, b| {
        if !trusted || matches!(r, PromptRegion::Output | PromptRegion::Outside) {
            out.extend_from_slice(b);
        }
    });
    assert!(!s.boundary_trusted());
    assert!(out.starts_with(b"\x1b]133;"));
}

#[test]
fn ordinary_escape_split_across_reads_keeps_trust() {
    for (a, b_) in [
        (&b"text\x1b"[..], &b"[31mred"[..]),
        (&b"text\x1b]"[..], &b"0;title\x07"[..]),
        (&b"text\x1b]1"[..], &b"0;something\x07"[..]),
    ] {
        let mut s = primed();
        let mut fwd = Vec::new();
        feed_segments(&mut s, a, |_, _, seg| fwd.extend_from_slice(seg));
        feed_segments(&mut s, b_, |_, _, seg| fwd.extend_from_slice(seg));
        assert!(
            s.boundary_trusted(),
            "trust lost on split escape {:?}+{:?}",
            String::from_utf8_lossy(a),
            String::from_utf8_lossy(b_)
        );
        let mut joined = a.to_vec();
        joined.extend_from_slice(b_);
        assert_eq!(fwd, joined, "split escape bytes must forward verbatim");
    }
}

#[test]
fn trusted_cycle_produces_block_with_exit_code_and_timing() {
    let mut s = primed();
    let cmds = feed_commands(
        &mut s,
        b"\x1b]133;A\x07PS> \x1b]133;B\x07echo hi\r\n\x1b]133;C\x07hi\r\n\x1b]133;D;0\x07",
    );
    assert_eq!(cmds.len(), 1, "trusted cycle yields exactly one block");
    let cmd = &cmds[0];
    assert_eq!(cmd.command, "echo hi");
    assert_eq!(cmd.exit_code, Some(0));
    assert!(cmd.started_at <= cmd.ended_at);
}

#[test]
fn failing_exit_code_with_st_terminator_is_extracted() {
    let mut s = primed();
    let cmds = feed_commands(
        &mut s,
        b"\x1b]133;A\x07> \x1b]133;B\x07cmd /c exit 3\r\n\x1b]133;C\x07\x1b]133;D;3\x1b\\",
    );
    assert_eq!(cmds[0].exit_code, Some(3));
}

#[test]
fn negative_exit_code_is_parsed() {
    let mut s = primed();
    let cmds = feed_commands(
        &mut s,
        b"\x1b]133;A\x07> \x1b]133;B\x07x\r\n\x1b]133;C\x07\x1b]133;D;-1073741510\x07",
    );
    assert_eq!(cmds[0].exit_code, Some(-1073741510));
}

#[test]
fn bare_d_records_unknown_exit_code() {
    let mut s = primed();
    let cmds = feed_commands(
        &mut s,
        b"\x1b]133;A\x07> \x1b]133;B\x07ls\r\n\x1b]133;C\x07out\r\n\x1b]133;D\x07",
    );
    assert_eq!(cmds.len(), 1, "block recorded without an exit code");
    assert_eq!(cmds[0].exit_code, None);
    assert_eq!(cmds[0].command, "ls");
}

#[test]
fn exit_code_mark_split_across_reads_is_carried() {
    let mut s = primed();
    let cmds = feed_commands(
        &mut s,
        b"\x1b]133;A\x07> \x1b]133;B\x07x\r\n\x1b]133;C\x07out\x1b]13",
    );
    assert!(cmds.is_empty(), "mark incomplete — no block yet");
    let cmds = feed_commands(&mut s, b"3;D;42\x07");
    assert_eq!(cmds[0].exit_code, Some(42));
}

#[test]
fn two_completions_in_one_read_stay_ordered() {
    let mut s = primed();
    let cmds = feed_commands(
        &mut s,
        b"\x1b]133;A\x07> \x1b]133;B\x07first\r\n\x1b]133;C\x07\x1b]133;D;0\x07\
\x1b]133;A\x07> \x1b]133;B\x07second\r\n\x1b]133;C\x07\x1b]133;D;1\x07",
    );
    assert_eq!(cmds.len(), 2);
    assert_eq!((cmds[0].command.as_str(), cmds[0].exit_code), ("first", Some(0)));
    assert_eq!((cmds[1].command.as_str(), cmds[1].exit_code), ("second", Some(1)));
}

#[test]
fn untrusted_or_partial_cycle_produces_no_block() {
    let mut s = PromptSniffer::default();
    let cmds = feed_commands(&mut s, b"\x1b]133;B\x07cmd\x1b]133;C\x07out\x1b]133;D;0\x07");
    assert!(cmds.is_empty());

    let mut s = PromptSniffer::default();
    let cmds = feed_commands(
        &mut s,
        b"\x1b]133;A\x07> \x1b]133;B\x07real\r\n\x1b]133;C\x07out\x1b]133;D;0\x07",
    );
    assert!(s.boundary_trusted());
    assert!(cmds.is_empty());
}

#[test]
fn empty_or_whitespace_command_produces_no_block() {
    let mut s = primed();
    let cmds = feed_commands(
        &mut s,
        b"\x1b]133;A\x07> \x1b]133;B\x07\r\n\x1b]133;C\x07\x1b]133;D;0\x07",
    );
    assert!(cmds.is_empty());
}

#[test]
fn command_text_is_stripped_of_sgr_and_controls() {
    let mut s = primed();
    let cmds = feed_commands(
        &mut s,
        b"\x1b]133;A\x07> \x1b]133;B\x07\x1b[93mgit\x1b[0m status\r\n\x1b]133;C\x07\x1b]133;D;0\x07",
    );
    assert_eq!(cmds[0].command, "git status");
}

#[test]
fn command_echo_redraws_converge_to_final_line() {
    let mut s = primed();
    let cmds = feed_commands(
        &mut s,
        b"\x1b]133;A\x07> \x1b]133;B\x07\
\x1b[1;9H\x1b[K\x1b[93me\x1b[0m\
\x1b[1;9H\x1b[K\x1b[93mecho\x1b[0m hi\
\x1b[1;9H\x1b[K\x1b[93mecho\x1b[0m hi2\r\n\
\x1b]133;C\x07\x1b]133;D;0\x07",
    );
    assert_eq!(cmds[0].command, "echo hi2");
}

#[test]
fn mark_hook_fires_in_stream_order_with_edges() {
    let mut s = primed();
    let mut log = Vec::<String>::new();
    for e in s.feed(b"\x1b]133;A\x07p>\x1b]133;B\x07cmd\x1b]133;C\x07OUT") {
        match e {
            SnifferEvent::Segment { bytes, .. } => {
                log.push(format!("seg:{}", String::from_utf8_lossy(&bytes)));
            }
            SnifferEvent::Mark(m) => {
                let mut tags = Vec::new();
                if m.prompt_started {
                    tags.push("A".to_string());
                }
                if let Some(start) = &m.command_started {
                    tags.push(format!("C:{}", start.command));
                }
                if m.command_finished.is_some() {
                    tags.push("D".to_string());
                }
                log.push(format!("mark[{}]", tags.join(",")));
            }
        }
    }
    assert_eq!(log, vec!["mark[A]", "seg:p>", "mark[]", "seg:cmd", "mark[C:cmd]", "seg:OUT"]);
}

#[test]
fn mark_hook_receives_raw_mark_bytes_including_carry() {
    let mut s = PromptSniffer::default();
    let mut marks = Vec::<Vec<u8>>::new();
    for input in [&b"\x1b]133;A\x07p\x1b]13"[..], &b"3;B\x07"[..]] {
        for e in s.feed(input) {
            if let SnifferEvent::Mark(m) = e {
                marks.push(m.bytes);
            }
        }
    }
    assert_eq!(marks, vec![b"\x1b]133;A\x07".to_vec(), b"\x1b]133;B\x07".to_vec()]);
}

fn command_starts(s: &mut PromptSniffer, input: &[u8]) -> Vec<String> {
    let mut starts = Vec::new();
    for e in s.feed(input) {
        if let SnifferEvent::Mark(m) = e {
            if let Some(start) = m.command_started {
                starts.push(start.command);
            }
        }
    }
    starts
}

#[test]
fn command_started_only_for_trusted_nonempty_commands() {
    let mut s = PromptSniffer::default();
    let mut starts = Vec::<String>::new();
    starts.extend(command_starts(
        &mut s,
        b"\x1b]133;A\x07\x1b]133;B\x07\x1b]133;C\x07\x1b]133;D;0\x07",
    ));
    assert!(starts.is_empty());
    starts.extend(command_starts(
        &mut s,
        b"\x1b]133;A\x07> \x1b]133;B\x07sleep 5\r\n\x1b]133;C\x07",
    ));
    assert_eq!(starts.as_slice(), ["sleep 5".to_string()]);
    starts.extend(command_starts(
        &mut s,
        b"\x1b]133;D;0\x07\x1b]133;A\x07> \x1b]133;B\x07\r\n\x1b]133;C\x07",
    ));
    assert_eq!(starts.len(), 1);
}

#[test]
fn right_prompt_marker_stays_in_prompt_region() {
    let stream = b"\x1b]133;A\x07left>\x1b]133;P;k=r\x07right\x1b]133;B\x07cmd\x1b]133;C\x07out";
    let segs = run_with_trust(&[stream]);
    assert_eq!(
        segs,
        vec![
            (PromptRegion::Prompt, false, b"left>".to_vec()),
            (PromptRegion::Prompt, false, b"right".to_vec()),
            (PromptRegion::Command, false, b"cmd".to_vec()),
            (PromptRegion::Output, false, b"out".to_vec()),
        ]
    );
}

#[test]
fn trust_changes_are_reported_once() {
    let mut s = primed();
    assert_eq!(s.take_boundary_trust_changed(), Some(true));
    assert_eq!(s.take_boundary_trust_changed(), None);
    // A prompt that repeats the trusted state reports nothing new.
    s.feed(b"\x1b]133;A\x07PS> ");
    assert_eq!(s.take_boundary_trust_changed(), None);
    s.feed(b"\x1b]133;B\x07\x1b]133;B\x07");
    assert!(!s.boundary_trusted());
    assert_eq!(s.take_boundary_trust_changed(), Some(false));
}

#[test]
fn a_finished_command_reports_the_start_time_of_its_output() {
    let mut s = primed();
    let mut started = Vec::new();
    let mut finished = Vec::new();
    for input in [&b"\x1b]133;A\x07PS> \x1b]133;B\x07ls\r\n\x1b]133;C\x07"[..], b"out\r\n", b"\x1b]133;D;0\x07"] {
        for event in s.feed(input) {
            if let SnifferEvent::Mark(m) = event {
                if let Some(c) = m.command_started {
                    started.push(c.started_at);
                }
                if let Some(c) = m.command_finished {
                    finished.push((c.started_at, c.ended_at));
                }
            }
        }
    }
    assert_eq!(started.len(), 1);
    assert_eq!(finished.len(), 1);
    assert_eq!(finished[0].0, started[0]);
    assert!(finished[0].0 <= finished[0].1);
}

#[test]
fn every_byte_is_forwarded_once_in_order_however_reads_split() {
    let stream: &[u8] =
        b"\x1b]133;A\x07PS> \x1b]133;B\x07ls\x1b[0m\x1b]133;C\x07out\x1b]133;D;0\x1b\\\x1b]133;A\x07";
    let n = stream.len();
    for i in 0..=n {
        for j in i..=n {
            let chunks: [&[u8]; 3] = [&stream[..i], &stream[i..j], &stream[j..]];
            assert_eq!(engine_stream(&chunks), stream, "split at {} and {}", i, j);
        }
    }
}
