use std::time::SystemTime;

use terminal::marks::{MarkAction, MarkLedger, apply_sniffer_mark};
use terminal::sniffer::{CommandCapture, CommandStart, PromptSniffer, SnifferEvent, SnifferMark};

fn mark(trusted: bool, prompt: bool, start: Option<&str>, finish: Option<(&str, Option<i32>)>, clear: bool) -> SnifferMark {
    let now = SystemTime::now();
    SnifferMark {
        bytes: b"\x1b]133;A\x07".to_vec(),
        trusted,
        prompt_started: prompt,
        command_started: start.map(|c| CommandStart { seq: 0, command: c.to_string(), cwd: None, started_at: now }),
        command_finished: finish.map(|(c, code)| CommandCapture {
            seq: 0,
            command: c.to_string(),
            exit_code: code,
            cwd: None,
            started_at: now,
            ended_at: now,
        }),
        history_cleared: clear,
    }
}

#[test]
fn finished_command_reports_its_launch_directory() {
    let mut ledger = MarkLedger { mark_seq: 0, launch_cwd: None };
    let a = apply_sniffer_mark(&mut ledger, mark(true, true, None, None, false), Some("/origin".into()), false, true);
    assert!(matches!(a.as_slice(), [MarkAction::PromptStarted]));
    let c = apply_sniffer_mark(&mut ledger, mark(true, false, Some("cd dest"), None, false), Some("/origin".into()), false, true);
    match c.as_slice() {
        [MarkAction::CommandStarted(s)] => {
            assert_eq!((s.seq, s.command.as_str(), s.cwd.as_deref()), (1, "cd dest", Some("/origin")));
        }
        _ => panic!("expected a command start"),
    }
    // The directory has changed by the time the command finishes.
    let d = apply_sniffer_mark(&mut ledger, mark(true, false, None, Some(("cd dest", Some(0))), false), Some("/dest".into()), false, true);
    match d.as_slice() {
        [MarkAction::FinishBlock { seq }, MarkAction::CommandFinished(f)] => {
            assert_eq!(*seq, 1);
            assert_eq!((f.seq, f.command.as_str(), f.exit_code, f.cwd.as_deref()), (1, "cd dest", Some(0), Some("/origin")));
        }
        _ => panic!("expected a block and a finish"),
    }
    assert!(ledger.launch_cwd.is_none());
}

#[test]
fn untrusted_or_alternate_screen_finishes_freeze_no_block() {
    let mut ledger = MarkLedger { mark_seq: 4, launch_cwd: None };
    let d = apply_sniffer_mark(&mut ledger, mark(false, true, None, Some(("x", None)), true), None, false, true);
    match d.as_slice() {
        [MarkAction::CommandFinished(f)] => assert_eq!((f.seq, f.cwd.clone()), (4, None)),
        _ => panic!("expected only the finish"),
    }
    let d = apply_sniffer_mark(&mut ledger, mark(true, false, None, Some(("x", None)), true), None, true, true);
    assert!(matches!(d.as_slice(), [MarkAction::CommandFinished(_)]));
    let k = apply_sniffer_mark(&mut ledger, mark(true, false, None, None, true), None, false, true);
    assert!(matches!(k.as_slice(), [MarkAction::HistoryCleared]));
    let k = apply_sniffer_mark(&mut ledger, mark(true, false, None, None, true), None, false, false);
    assert!(k.is_empty());
}

/// A stand-in engine: it remembers the last OSC 7 directory written to it.
#[derive(Default)]
struct FakeEngine {
    written: Vec<u8>,
    cwd: Option<String>,
}

impl FakeEngine {
    fn write_vt(&mut self, bytes: &[u8]) {
        self.written.extend_from_slice(bytes);
        let text = String::from_utf8_lossy(&self.written).to_string();
        if let Some(at) = text.rfind("\x1b]7;") {
            if let Some(end) = text[at..].find('\x07') {
                self.cwd = Some(text[at + 4..at + end].to_string());
            }
        }
    }
}

/// One PTY read of `stream`, every mark acted on at its stream position
/// (engine blocks on): the command starts and finishes it announces.
fn read_commands(stream: &[u8]) -> (Vec<CommandStart>, Vec<CommandCapture>) {
    let mut sniffer = PromptSniffer::default();
    let mut ledger = MarkLedger { mark_seq: 0, launch_cwd: None };
    let mut engine = FakeEngine::default();
    let (mut starts, mut finishes) = (Vec::new(), Vec::new());
    for event in sniffer.feed(stream) {
        match event {
            SnifferEvent::Segment { bytes, .. } => engine.write_vt(&bytes),
            SnifferEvent::Mark(mark) => {
                engine.write_vt(&mark.bytes);
                let cwd = if mark.command_started.is_some() { engine.cwd.clone() } else { None };
                for action in apply_sniffer_mark(&mut ledger, mark, cwd, false, true) {
                    match action {
                        MarkAction::CommandStarted(s) => starts.push(s),
                        MarkAction::CommandFinished(c) => finishes.push(c),
                        _ => {}
                    }
                }
            }
        }
    }
    (starts, finishes)
}

#[test]
fn pty_pipe_pty_read_emits_command_finished_with_launch_cwd() {
    let stream = b"\x1b]133;A\x07\x1b]133;B\x07\x1b]133;C\x07\
\x1b]7;file:///C:/origin\x07\x1b]133;D;0\x07\x1b]133;A\x07PS> \x1b]133;B\x07\
cd dest\r\n\x1b]133;C\x07\
\x1b]7;file:///C:/dest\x07\x1b]133;D;0\x07\x1b]133;A\x07PS dest> \x1b]133;B\x07";
    let (_, blocks) = read_commands(stream);
    assert_eq!(blocks.len(), 1, "one block for the cd; none for the synthetic prime");
    let b = &blocks[0];
    assert_eq!(b.command, "cd dest");
    assert_eq!(b.exit_code, Some(0));
    assert!(b.started_at <= b.ended_at);
    let cwd = b.cwd.as_ref().expect("launch cwd latched from OSC 7");
    assert!(cwd.contains("origin") && !cwd.contains("dest"), "cwd must be the launch (origin) directory, got {cwd}");
}

#[test]
fn pty_pipe_pty_read_emits_no_command_for_untrusted_stream() {
    let (_, blocks) = read_commands(b"\x1b]133;B\x07evil\x1b]133;C\x07out\x1b]133;D;0\x07");
    assert!(blocks.is_empty());
}

#[test]
fn pty_pipe_pty_read_emits_start_and_finish_events_with_seq() {
    let stream = b"\x1b]133;A\x07\x1b]133;B\x07\x1b]133;C\x07\
\x1b]7;file:///C:/w\x07\x1b]133;D;0\x07\x1b]133;A\x07PS> \x1b]133;B\x07\
echo one\r\n\x1b]133;C\x07one\r\n\
\x1b]7;file:///C:/w\x07\x1b]133;D;0\x07\x1b]133;A\x07PS> \x1b]133;B\x07\
echo two\r\n\x1b]133;C\x07two\r\n\
\x1b]7;file:///C:/w\x07\x1b]133;D;0\x07\x1b]133;A\x07PS> \x1b]133;B\x07";
    let (starts, finishes) = read_commands(stream);
    assert_eq!(starts.len(), 2, "one start per real command, none for the prime");
    assert_eq!(finishes.len(), 2);
    assert_eq!(starts[0].command, "echo one");
    assert_eq!(starts[1].command, "echo two");
    assert_eq!(finishes[0].command, "echo one");
    assert_eq!(finishes[1].command, "echo two");
    assert_eq!(starts[0].seq, finishes[0].seq);
    assert_eq!(starts[1].seq, finishes[1].seq);
    assert!(starts[0].seq < starts[1].seq);
}
