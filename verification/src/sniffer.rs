//! The OSC 133 prompt sniffer: tracks the shell's prompt / command / output
//! region across PTY reads while the byte stream is forwarded unchanged. A
//! mark split across reads is carried to the next read.

use vstd::prelude::*;

use crate::echo::{command_echo_spec, render_command_echo};
use crate::osc133::{
    OSC133_MAX, Osc133, PromptRegion, osc133_spec, parse_osc133, agrees_with_prefix,
    osc133_prefix, first_terminator, is_terminator_start,
};

verus! {

#[verifier::external_type_specification]
#[verifier::external_body]
pub struct ExSystemTime(std::time::SystemTime);

/// Reads the wall clock (`SystemTime::now`); nothing is promised of the
/// value.
#[verifier::external_body]
fn system_now() -> std::time::SystemTime {
    std::time::SystemTime::now()
}

/// `memchr::memchr`: the index of the first `needle` byte in `haystack`.
#[verifier::external_body]
pub(crate) fn find_byte(needle: u8, haystack: &[u8]) -> (r: Option<usize>)
    ensures
        r matches Some(i) ==> i < haystack@.len() && haystack@[i as int] == needle && forall|
            j: int,
        | 0 <= j < i ==> haystack@[j] != needle,
        r is None ==> forall|j: int| 0 <= j < haystack@.len() ==> haystack@[j] != needle,
{
    memchr::memchr(needle, haystack)
}

/// How far the shell lifecycle has progressed since the last prompt.
#[derive(Clone, Copy, PartialEq, Eq, Debug, Structural)]
pub enum Lifecycle {
    AwaitPrompt,
    InPrompt,
    InCommand,
    InOutput,
}

/// A trusted command that began producing output (`;C`).
#[derive(Debug)]
pub struct CommandStart {
    /// Prompt sequence number, stamped by the caller.
    pub seq: u64,
    pub command: String,
    /// Launch directory, filled by the caller.
    pub cwd: Option<String>,
    pub started_at: std::time::SystemTime,
}

/// A trusted command that completed (`;D`).
#[derive(Debug)]
pub struct CommandCapture {
    pub seq: u64,
    pub command: String,
    pub exit_code: Option<i32>,
    pub cwd: Option<String>,
    pub started_at: std::time::SystemTime,
    pub ended_at: std::time::SystemTime,
}

/// A recognized OSC 133 mark at its exact stream position.
#[derive(Debug)]
pub struct SnifferMark {
    /// The raw mark bytes, to be forwarded to the engine.
    pub bytes: Vec<u8>,
    pub trusted: bool,
    /// A valid transition into the prompt region (`;A`).
    pub prompt_started: bool,
    pub command_started: Option<CommandStart>,
    pub command_finished: Option<CommandCapture>,
    /// The user cleared the terminal (`;K`).
    pub history_cleared: bool,
}

/// What one read produces, in stream order: runs of ordinary bytes tagged
/// with their region and trust, and the marks between them.
#[derive(Debug)]
pub enum SnifferEvent {
    Segment { region: PromptRegion, trusted: bool, bytes: Vec<u8> },
    Mark(SnifferMark),
}

/// The sniffer's state as the contracts see it.
pub struct SnifferModel {
    pub region: PromptRegion,
    pub trusted: bool,
    pub lifecycle: Lifecycle,
    /// Raw bytes of the current command-echo region.
    pub cmd_buf: Seq<u8>,
    /// The command rendered at `;C`.
    pub current: Seq<char>,
    /// Whether the current command has started output.
    pub started: bool,
    /// When a reported command started its output (the clock read at its
    /// `;C`); `None` while no reported command is running.
    pub started_at: Option<std::time::SystemTime>,
}

pub open spec fn reset_model(m: SnifferModel) -> SnifferModel {
    SnifferModel {
        region: PromptRegion::Outside,
        trusted: false,
        lifecycle: Lifecycle::AwaitPrompt,
        cmd_buf: Seq::empty(),
        current: Seq::empty(),
        started: false,
        started_at: None,
    }
}

/// The region transitions an ordered shell lifecycle may take.
pub open spec fn region_step_ok(from: PromptRegion, to: PromptRegion) -> bool {
    ||| (from == PromptRegion::Outside && to == PromptRegion::Outside)
    ||| (from == PromptRegion::Outside && to == PromptRegion::Prompt)
    ||| (from == PromptRegion::Prompt && to == PromptRegion::Prompt)
    ||| (from == PromptRegion::Prompt && to == PromptRegion::Command)
    ||| (from == PromptRegion::Command && to == PromptRegion::Output)
    ||| (from == PromptRegion::Output && to == PromptRegion::Outside)
    ||| (from == PromptRegion::Output && to == PromptRegion::Prompt)
}

pub open spec fn lifecycle_step(l: Lifecycle, r: PromptRegion) -> Option<Lifecycle> {
    if (l == Lifecycle::AwaitPrompt || l == Lifecycle::InPrompt) && r == PromptRegion::Prompt {
        Some(Lifecycle::InPrompt)
    } else if l == Lifecycle::InPrompt && r == PromptRegion::Command {
        Some(Lifecycle::InCommand)
    } else if l == Lifecycle::InCommand && r == PromptRegion::Output {
        Some(Lifecycle::InOutput)
    } else if l == Lifecycle::InOutput && r == PromptRegion::Outside {
        Some(Lifecycle::AwaitPrompt)
    } else {
        None
    }
}

/// Whether a mark switching to `next` continues an ordered lifecycle.
pub open spec fn mark_valid(m: SnifferModel, next: Option<PromptRegion>) -> bool {
    match next {
        Some(r) => region_step_ok(m.region, r) && lifecycle_step(m.lifecycle, r) is Some,
        None => false,
    }
}

/// The state after a mark: a transition outside the ordered
/// prompt/command/output/end cycle drops trust and resynchronizes; a
/// completed cycle (`;D` after output) grants trust.
pub open spec fn apply_model(m: SnifferModel, next: Option<PromptRegion>) -> SnifferModel {
    match next {
        None => m,
        Some(r) => if !mark_valid(m, next) {
            reset_model(m)
        } else {
            let lc = lifecycle_step(m.lifecycle, r).unwrap();
            let trusted = m.trusted || (m.lifecycle == Lifecycle::InOutput && r
                == PromptRegion::Outside);
            if r == PromptRegion::Output {
                SnifferModel {
                    region: r,
                    trusted,
                    lifecycle: lc,
                    cmd_buf: m.cmd_buf,
                    current: command_echo_spec(m.cmd_buf),
                    started: true,
                    started_at: m.started_at,
                }
            } else if r == PromptRegion::Command {
                SnifferModel {
                    region: r,
                    trusted,
                    lifecycle: lc,
                    cmd_buf: Seq::empty(),
                    current: m.current,
                    started: m.started,
                    started_at: m.started_at,
                }
            } else if r == PromptRegion::Outside {
                SnifferModel {
                    region: r,
                    trusted,
                    lifecycle: lc,
                    cmd_buf: Seq::empty(),
                    current: Seq::empty(),
                    started: false,
                    started_at: None,
                }
            } else {
                SnifferModel { region: r, trusted, lifecycle: lc, ..m }
            }
        },
    }
}

/// Whether a mark switching to `next` from `m` starts the output of a
/// command that is reported (`;C` of a trusted, non-empty command).
pub open spec fn reports_start(m: SnifferModel, next: Option<PromptRegion>) -> bool {
    mark_valid(m, next) && next == Some(PromptRegion::Output) && m.trusted
        && command_echo_spec(m.cmd_buf).len() > 0
}

/// The state after mark `mk`: `apply_model`, with the start time of a
/// reported command taken from its report.
pub open spec fn apply_mark_model(m: SnifferModel, next: Option<PromptRegion>, mk: SnifferMark) -> SnifferModel {
    let m1 = apply_model(m, next);
    if reports_start(m, next) {
        SnifferModel {
            started_at: match mk.command_started {
                Some(cs) => Some(cs.started_at),
                None => None,
            },
            ..m1
        }
    } else if mark_valid(m, next) && next == Some(PromptRegion::Output) {
        SnifferModel { started_at: None, ..m1 }
    } else {
        m1
    }
}

/// What a mark event reports, given the state `m` before it.
pub open spec fn mark_report_ok(
    m: SnifferModel,
    sub: u8,
    exit: Option<i32>,
    next: Option<PromptRegion>,
    mk: SnifferMark,
) -> bool {
    let valid = mark_valid(m, next);
    &&& mk.trusted == apply_model(m, next).trusted
    &&& mk.prompt_started == (valid && next == Some(PromptRegion::Prompt))
    &&& mk.history_cleared == (next is None && sub == 0x4bu8)
    &&& (mk.command_started is Some <==> (valid && next == Some(PromptRegion::Output)
        && m.trusted && command_echo_spec(m.cmd_buf).len() > 0))
    &&& (mk.command_started matches Some(cs) ==> cs.command@ == command_echo_spec(m.cmd_buf)
        && cs.seq == 0 && cs.cwd is None)
    &&& (mk.command_finished is Some <==> (valid && next == Some(PromptRegion::Outside)
        && m.trusted && m.current.len() > 0 && m.started))
    &&& (mk.command_finished matches Some(cf) ==> cf.command@ == m.current && cf.exit_code
        == exit && cf.seq == 0 && cf.cwd is None && m.started_at == Some(cf.started_at))
}

/// The first `OSC133_MAX` bytes of `s` (all of them when it is shorter):
/// what a mark carried from the previous read is resolved against.
pub open spec fn window(s: Seq<u8>) -> Seq<u8> {
    if s.len() <= OSC133_MAX {
        s
    } else {
        s.take(OSC133_MAX as int)
    }
}

/// Whether a run of ordinary bytes found by the scan, followed in the
/// stream by `rest` (the run's own bytes first), holds no mark: each ESC in
/// it starts an ordinary escape, except that its first byte may be the ESC
/// of a malformed mark.
pub open spec fn scan_run_ok(bytes: Seq<u8>, rest: Seq<u8>) -> bool {
    forall|k: int|
        0 <= k < bytes.len() && bytes[k] == 0x1bu8 ==> (osc133_spec(#[trigger] rest.skip(k)) is NotMark
            || (k == 0 && osc133_spec(rest.skip(k)) is Malformed))
}

/// Whether a run found by the scan starts at the ESC of a malformed mark,
/// which resynchronizes the sniffer.
pub open spec fn scan_run_resets(bytes: Seq<u8>, rest: Seq<u8>) -> bool {
    bytes.len() > 0 && bytes[0] == 0x1bu8 && osc133_spec(rest) is Malformed
}

/// Whether bytes carried from the previous read, resolved against the
/// stream `rest` that they start, resynchronize the sniffer: when they
/// begin a malformed mark, or one still unfinished at the carry limit.
pub open spec fn carry_resets(rest: Seq<u8>) -> bool {
    osc133_spec(window(rest)) is Malformed || osc133_spec(window(rest)) is Incomplete
}

/// The state after event `e` from state `m`, or `None` if `e` is not a
/// faithful report; `rest` is the stream from the event's first byte on.
/// A segment holds no mark of the stream (bytes carried from the previous
/// read: none that the carry window completes), and carries the current
/// region and trust, or the reset state exactly when it starts at a
/// malformed mark. A run is reported whole: a segment that directly
/// follows another one (`after_segment`, the carried bytes aside) starts at
/// a malformed mark. Segments of the command region feed the command echo,
/// except bytes carried from the previous read (`from_carry`).
pub open spec fn event_step(
    m: SnifferModel,
    e: SnifferEvent,
    from_carry: bool,
    after_segment: bool,
    rest: Seq<u8>,
) -> Option<SnifferModel> {
    match e {
        SnifferEvent::Segment { region, trusted, bytes } => {
            let resets = if from_carry {
                carry_resets(rest)
            } else {
                scan_run_resets(bytes@, rest)
            };
            let clean = if from_carry {
                !(osc133_spec(window(rest)) is Mark)
            } else {
                scan_run_ok(bytes@, rest)
            };
            let m1 = if resets {
                reset_model(m)
            } else {
                m
            };
            if bytes@.len() == 0 || !clean || region != m1.region || trusted != m1.trusted || (
            after_segment && !resets) {
                None
            } else if region == PromptRegion::Command && !from_carry {
                Some(SnifferModel { cmd_buf: m1.cmd_buf + bytes@, ..m1 })
            } else {
                Some(m1)
            }
        },
        SnifferEvent::Mark(mk) => match osc133_spec(mk.bytes@) {
            Osc133::Mark { len, sub, exit, next } => {
                if len == mk.bytes@.len() && mark_report_ok(m, sub, exit, next, mk) {
                    Some(apply_mark_model(m, next, mk))
                } else {
                    None
                }
            },
            _ => None,
        },
    }
}

/// Whether the events `before` end in a segment found by the scan (not the
/// bytes carried from the previous read).
pub open spec fn follows_run(before: Seq<SnifferEvent>, carry_first: bool) -> bool {
    before.len() > 0 && before.last() is Segment && !(carry_first && before.len() == 1)
}

/// The state reached by replaying `evs` from `m0` over the stream `s`
/// that they cut up; `carry_first` marks that a first segment consists of
/// bytes carried from the previous read.
pub open spec fn events_reach(
    m0: SnifferModel,
    evs: Seq<SnifferEvent>,
    carry_first: bool,
    s: Seq<u8>,
) -> Option<SnifferModel>
    decreases evs.len(),
{
    if evs.len() == 0 {
        Some(m0)
    } else {
        match events_reach(m0, evs.drop_last(), carry_first, s) {
            Some(m) => event_step(
                m,
                evs.last(),
                carry_first && evs.len() == 1,
                follows_run(evs.drop_last(), carry_first),
                s.skip(events_bytes(evs.drop_last()).len() as int),
            ),
            None => None,
        }
    }
}

pub open spec fn event_bytes(e: SnifferEvent) -> Seq<u8> {
    match e {
        SnifferEvent::Segment { bytes, .. } => bytes@,
        SnifferEvent::Mark(mk) => mk.bytes@,
    }
}

/// All bytes the events hand on, in order.
pub open spec fn events_bytes(evs: Seq<SnifferEvent>) -> Seq<u8>
    decreases evs.len(),
{
    if evs.len() == 0 {
        Seq::empty()
    } else {
        events_bytes(evs.drop_last()) + event_bytes(evs.last())
    }
}

/// Region and lifecycle move together; outside a command nothing is
/// buffered.
pub open spec fn model_wf(m: SnifferModel) -> bool {
    &&& (m.region == PromptRegion::Outside <==> m.lifecycle == Lifecycle::AwaitPrompt)
    &&& (m.region == PromptRegion::Prompt <==> m.lifecycle == Lifecycle::InPrompt)
    &&& (m.region == PromptRegion::Command <==> m.lifecycle == Lifecycle::InCommand)
    &&& (m.region == PromptRegion::Output <==> m.lifecycle == Lifecycle::InOutput)
    &&& (m.region == PromptRegion::Outside ==> m.cmd_buf.len() == 0 && m.current.len() == 0
        && !m.started)
}

/// Tracks the OSC 133 region across PTY reads.
pub struct PromptSniffer {
    region: PromptRegion,
    trusted: bool,
    trust_changed: Option<bool>,
    lifecycle: Lifecycle,
    carry: Vec<u8>,
    command_buf: Vec<u8>,
    command_started_at: Option<std::time::SystemTime>,
    current_command: String,
    prompt_start_edge: bool,
    command_started_edge: bool,
    command_finished: Option<CommandCapture>,
    history_cleared_edge: bool,
}

impl Default for PromptSniffer {
    fn default() -> (s: Self)
        ensures
            s.wf(),
            s.model() == reset_model(s.model()),
            s.carried().len() == 0,
            s.pending_trust_change() is None,
    {
        PromptSniffer::new()
    }
}

impl PromptSniffer {
    pub closed spec fn model(&self) -> SnifferModel {
        SnifferModel {
            region: self.region,
            trusted: self.trusted,
            lifecycle: self.lifecycle,
            cmd_buf: self.command_buf@,
            current: self.current_command@,
            started: self.command_started_at is Some,
            started_at: if self.trusted && self.current_command@.len() > 0 {
                self.command_started_at
            } else {
                None
            },
        }
    }

    /// Bytes of a mark split across reads, held until the next read.
    pub closed spec fn carried(&self) -> Seq<u8> {
        self.carry@
    }

    /// The pending trust-change notification.
    pub closed spec fn pending_trust_change(&self) -> Option<bool> {
        self.trust_changed
    }

    pub closed spec fn wf(&self) -> bool {
        &&& model_wf(self.model())
        &&& self.carry@.len() <= OSC133_MAX
        &&& (self.carry@.len() > 0 ==> osc133_spec(self.carry@) is Incomplete)
        &&& !self.prompt_start_edge
        &&& !self.command_started_edge
        &&& self.command_finished is None
        &&& !self.history_cleared_edge
    }

    pub fn new() -> (s: Self)
        ensures
            s.wf(),
            s.model() == reset_model(s.model()),
            s.carried().len() == 0,
            s.pending_trust_change() is None,
    {
        let s = PromptSniffer {
            region: PromptRegion::Outside,
            trusted: false,
            trust_changed: None,
            lifecycle: Lifecycle::AwaitPrompt,
            carry: Vec::new(),
            command_buf: Vec::new(),
            command_started_at: None,
            current_command: String::new(),
            prompt_start_edge: false,
            command_started_edge: false,
            command_finished: None,
            history_cleared_edge: false,
        };
        assert(s.model().cmd_buf =~= Seq::<u8>::empty());
        assert(s.model().current =~= Seq::<char>::empty());
        s
    }

    /// Whether the parsed lifecycle is trusted for prompt hiding.
    pub fn boundary_trusted(&self) -> (r: bool)
        ensures
            r == self.model().trusted,
    {
        self.trusted
    }

    pub fn region(&self) -> (r: PromptRegion)
        ensures
            r == self.model().region,
    {
        self.region
    }

    /// Takes the pending trust-change notification.
    pub fn take_boundary_trust_changed(&mut self) -> (r: Option<bool>)
        requires
            old(self).wf(),
        ensures
            final(self).wf(),
            r == old(self).pending_trust_change(),
            final(self).pending_trust_change() is None,
            final(self).model() == old(self).model(),
            final(self).carried() == old(self).carried(),
    {
        let r = self.trust_changed;
        self.trust_changed = None;
        r
    }

    fn set_boundary_trust(&mut self, trusted: bool)
        ensures
            final(self).trusted == trusted,
            final(self).trust_changed == (if old(self).trusted != trusted {
                Some(trusted)
            } else {
                old(self).trust_changed
            }),
            final(self).region == old(self).region,
            final(self).lifecycle == old(self).lifecycle,
            final(self).carry == old(self).carry,
            final(self).command_buf == old(self).command_buf,
            final(self).command_started_at == old(self).command_started_at,
            final(self).current_command == old(self).current_command,
            final(self).prompt_start_edge == old(self).prompt_start_edge,
            final(self).command_started_edge == old(self).command_started_edge,
            final(self).command_finished == old(self).command_finished,
            final(self).history_cleared_edge == old(self).history_cleared_edge,
    {
        if self.trusted != trusted {
            self.trusted = trusted;
            self.trust_changed = Some(trusted);
        }
    }

    /// Drop trust and resynchronize on the next prompt.
    fn reset_boundary_state(&mut self)
        ensures
            final(self).model() == reset_model(old(self).model()),
            final(self).trust_changed == (if old(self).trusted {
                Some(false)
            } else {
                old(self).trust_changed
            }),
            final(self).carry == old(self).carry,
            !final(self).prompt_start_edge,
            !final(self).command_started_edge,
            final(self).command_finished == old(self).command_finished,
            final(self).history_cleared_edge == old(self).history_cleared_edge,
    {
        self.set_boundary_trust(false);
        self.lifecycle = Lifecycle::AwaitPrompt;
        self.region = PromptRegion::Outside;
        self.command_buf = Vec::new();
        self.command_started_at = None;
        self.current_command = String::new();
        self.prompt_start_edge = false;
        self.command_started_edge = false;
        assert(self.model().cmd_buf =~= Seq::<u8>::empty());
        assert(self.model().current =~= Seq::<char>::empty());
    }

    /// Auxiliary state that segments and marks leave alone.
    closed spec fn same_aux(&self, other: &PromptSniffer) -> bool {
        &&& self.carry == other.carry
        &&& self.trust_changed == other.trust_changed
        &&& self.prompt_start_edge == other.prompt_start_edge
        &&& self.command_started_edge == other.command_started_edge
        &&& self.command_finished == other.command_finished
        &&& self.history_cleared_edge == other.history_cleared_edge
    }

    /// Forward one run of ordinary bytes; runs from the main scan of the
    /// command region feed the command echo.
    fn emit_segment(&mut self, events: &mut Vec<SnifferEvent>, bytes: &[u8], scan: bool)
        requires
            bytes@.len() > 0,
        ensures
            final(events)@.len() == old(events)@.len() + 1,
            final(events)@.drop_last() == old(events)@,
            final(events)@.last() matches SnifferEvent::Segment { region, trusted, bytes: b }
                && region == old(self).region && trusted == old(self).trusted && b@ == bytes@,
            final(self).model() == (if scan && old(self).region == PromptRegion::Command {
                SnifferModel { cmd_buf: old(self).model().cmd_buf + bytes@, ..old(self).model() }
            } else {
                old(self).model()
            }),
            final(self).same_aux(old(self)),
    {
        if scan && self.region == PromptRegion::Command {
            self.command_buf.extend_from_slice(bytes);
            assert(self.model().cmd_buf =~= old(self).model().cmd_buf + bytes@);
        }
        let v = vstd::slice::slice_to_vec(bytes);
        events.push(SnifferEvent::Segment { region: self.region, trusted: self.trusted, bytes: v });
        assert(final(events)@.drop_last() =~= old(events)@);
    }

    /// Apply a recognized mark and report it.
    fn apply_mark(
        &mut self,
        bytes: Vec<u8>,
        sub: u8,
        exit: Option<i32>,
        next: Option<PromptRegion>,
    ) -> (mk: SnifferMark)
        requires
            old(self).wf(),
            next == crate::osc133::region_for_spec(sub),
        ensures
            final(self).wf(),
            final(self).model() == apply_mark_model(old(self).model(), next, mk),
            mark_report_ok(old(self).model(), sub, exit, next, mk),
            mk.bytes@ == bytes@,
            final(self).carry == old(self).carry,
            final(self).trust_changed == (if final(self).trusted != old(self).trusted {
                Some(final(self).trusted)
            } else {
                old(self).trust_changed
            }),
    {
        let ghost m = self.model();
        proof {
            lemma_apply_model_wf(m, next);
        }
        let r = match next {
            None => {
                return SnifferMark {
                    bytes,
                    trusted: self.trusted,
                    prompt_started: false,
                    command_started: None,
                    command_finished: None,
                    history_cleared: sub == 0x4bu8,
                };
            },
            Some(r) => r,
        };
        let was_trusted = self.trusted;
        let region_ok = match (self.region, r) {
            (PromptRegion::Outside, PromptRegion::Outside) | (
                PromptRegion::Outside,
                PromptRegion::Prompt,
            ) | (PromptRegion::Prompt, PromptRegion::Prompt) | (
                PromptRegion::Prompt,
                PromptRegion::Command,
            ) | (PromptRegion::Command, PromptRegion::Output) | (
                PromptRegion::Output,
                PromptRegion::Outside,
            ) | (PromptRegion::Output, PromptRegion::Prompt) => true,
            _ => false,
        };
        if !region_ok || !self.advance_lifecycle(r) {
            self.reset_boundary_state();
            return SnifferMark {
                bytes,
                trusted: false,
                prompt_started: false,
                command_started: None,
                command_finished: None,
                history_cleared: false,
            };
        }
        let prompt_started = r == PromptRegion::Prompt;
        let mut command_started: Option<CommandStart> = None;
        if r == PromptRegion::Output && self.region != PromptRegion::Output {
            let now = system_now();
            self.command_started_at = Some(now);
            self.current_command = render_command_echo(self.command_buf.as_slice());
            if was_trusted && !self.current_command.as_str().is_empty() {
                command_started = Some(
                    CommandStart {
                        seq: 0,
                        command: self.current_command.clone(),
                        cwd: None,
                        started_at: now,
                    },
                );
            }
        }
        if r == PromptRegion::Command {
            self.command_buf = Vec::new();
            assert(self.command_buf@ =~= Seq::<u8>::empty());
        }
        let mut command_finished: Option<CommandCapture> = None;
        if sub == 0x44u8 && r == PromptRegion::Outside {
            let started_at = self.command_started_at;
            self.command_started_at = None;
            let mut command = String::new();
            std::mem::swap(&mut command, &mut self.current_command);
            self.command_buf = Vec::new();
            assert(self.command_buf@ =~= Seq::<u8>::empty());
            assert(self.current_command@ =~= Seq::<char>::empty());
            if was_trusted && !command.as_str().is_empty() {
                if let Some(started_at) = started_at {
                    command_finished = Some(
                        CommandCapture {
                            seq: 0,
                            command,
                            exit_code: exit,
                            cwd: None,
                            started_at,
                            ended_at: system_now(),
                        },
                    );
                }
            }
        }
        self.region = r;
        SnifferMark {
            bytes,
            trusted: self.trusted,
            prompt_started,
            command_started,
            command_finished,
            history_cleared: false,
        }
    }

    /// The replay of `evs` from `m0` is faithful and reaches the current
    /// state, or (`reset_pending`) the state a resynchronization left
    /// behind just before the next segment.
    closed spec fn tracks(
        &self,
        m0: SnifferModel,
        cf: bool,
        evs: Seq<SnifferEvent>,
        reset_pending: bool,
        s: Seq<u8>,
    ) -> bool {
        &&& events_reach(m0, evs, cf, s) is Some
        &&& model_wf(events_reach(m0, evs, cf, s).unwrap())
        &&& (cf ==> evs.len() > 0)
        &&& (reset_pending ==> self.model() == reset_model(events_reach(m0, evs, cf, s).unwrap()))
        &&& (!reset_pending ==> events_reach(m0, evs, cf, s) == Some(self.model()))
    }

    closed spec fn trust_inv(&self, tc0: Option<bool>, t0: bool) -> bool {
        (self.trust_changed == tc0 && self.trusted == t0) || self.trust_changed == Some(
            self.trusted,
        )
    }

    /// Forward a run found by the main scan.
    fn scan_segment(
        &mut self,
        events: &mut Vec<SnifferEvent>,
        bytes: &[u8],
        Ghost(m0): Ghost<SnifferModel>,
        Ghost(cf): Ghost<bool>,
        Ghost(reset_pending): Ghost<bool>,
        Ghost(tc0): Ghost<Option<bool>>,
        Ghost(t0): Ghost<bool>,
        Ghost(st): Ghost<Seq<u8>>,
    )
        requires
            old(self).wf(),
            old(self).carry@.len() == 0,
            old(self).tracks(m0, cf, old(events)@, reset_pending, st),
            old(self).trust_inv(tc0, t0),
            bytes@.len() > 0,
            scan_run_ok(bytes@, st.skip(events_bytes(old(events)@).len() as int)),
            reset_pending == scan_run_resets(
                bytes@,
                st.skip(events_bytes(old(events)@).len() as int),
            ),
            follows_run(old(events)@, cf) ==> reset_pending,
        ensures
            final(self).wf(),
            final(self).carry@.len() == 0,
            final(self).tracks(m0, cf, final(events)@, false, st),
            final(self).trust_inv(tc0, t0),
            events_bytes(final(events)@) == events_bytes(old(events)@) + bytes@,
            final(events)@.len() == old(events)@.len() + 1,
            final(events)@.last() is Segment,
    {
        let ghost before = events@;
        self.emit_segment(events, bytes, true);
        proof {
            lemma_reach_push(m0, before, events@.last(), cf, st);
            assert(events@ =~= before.push(events@.last()));
        }
    }

    /// Apply and report a mark found by the main scan.
    fn scan_mark(
        &mut self,
        events: &mut Vec<SnifferEvent>,
        bytes: Vec<u8>,
        sub: u8,
        exit: Option<i32>,
        next: Option<PromptRegion>,
        Ghost(m0): Ghost<SnifferModel>,
        Ghost(cf): Ghost<bool>,
        Ghost(tc0): Ghost<Option<bool>>,
        Ghost(t0): Ghost<bool>,
        Ghost(st): Ghost<Seq<u8>>,
    )
        requires
            old(self).wf(),
            old(self).carry@.len() == 0,
            old(self).tracks(m0, cf, old(events)@, false, st),
            old(self).trust_inv(tc0, t0),
            osc133_spec(bytes@) == (Osc133::Mark { len: bytes@.len() as usize, sub, exit, next }),
            bytes@.len() <= OSC133_MAX + 1,
        ensures
            final(self).wf(),
            final(self).carry@.len() == 0,
            final(self).tracks(m0, cf, final(events)@, false, st),
            final(self).trust_inv(tc0, t0),
            events_bytes(final(events)@) == events_bytes(old(events)@) + bytes@,
            final(events)@.len() > 0,
            final(events)@.last() is Mark,
    {
        let ghost before = events@;
        let ghost m = self.model();
        let ghost b = bytes@;
        let mk = self.apply_mark(bytes, sub, exit, next);
        events.push(SnifferEvent::Mark(mk));
        proof {
            assert(events@.drop_last() =~= before);
            lemma_reach_push(m0, before, events@.last(), cf, st);
            assert(events@ =~= before.push(events@.last()));
            lemma_apply_model_wf(m, next);
            let e = events@.last();
            assert(e matches SnifferEvent::Mark(mk) && mk.bytes@ == b && mark_report_ok(m, sub, exit, next, mk));
            assert(event_step(
                m,
                e,
                cf && before.len() == 0,
                follows_run(before, cf),
                st.skip(events_bytes(before).len() as int),
            ) == Some(apply_mark_model(m, next, mk)));
            assert(events_reach(m0, events@, cf, st) == Some(self.model()));
        }
    }

    /// Resolve a mark carried from the previous read against the start of
    /// `input`. Returns how much of `input` it consumed, or `None` when the
    /// whole read extended the carried mark without completing it.
    fn resolve_carry(&mut self, events: &mut Vec<SnifferEvent>, input: &[u8]) -> (r: Option<
        usize,
    >)
        requires
            old(self).wf(),
            old(self).carry@.len() > 0,
            old(events)@.len() == 0,
        ensures
            final(self).wf(),
            r is None ==> final(events)@.len() == 0 && final(self).carry@ == old(self).carry@
                + input@ && final(self).model() == old(self).model() && final(self).trust_changed
                == old(self).trust_changed,
            r matches Some(p) ==> p <= input@.len() && final(self).carry@.len() == 0
                && final(events)@.len() == 1
                && events_bytes(final(events)@) == old(self).carry@ + input@.take(p as int)
                && final(self).tracks(
                old(self).model(),
                true,
                final(events)@,
                false,
                old(self).carry@ + input@,
            ) && final(self).trust_inv(old(self).trust_changed, old(self).trusted),
    {
        let ghost m0 = self.model();
        let ghost c0 = self.carry@;
        let n = input.len();
        let cl = self.carry.len();
        let room = OSC133_MAX - cl;
        let take = if room < n {
            room
        } else {
            n
        };
        let ghost st = c0 + input@;
        let mut tmp: Vec<u8> = self.carry.clone();
        tmp.extend_from_slice(&input[0..take]);
        assert(tmp@ =~= c0 + input@.take(take as int));
        assert(tmp@ =~= window(st));
        match parse_osc133(tmp.as_slice()) {
            Osc133::Mark { len, sub, exit, next } => {
                proof {
                    lemma_incomplete_then_mark(c0, tmp@);
                    lemma_mark_take(tmp@);
                }
                let mark_bytes = vstd::slice::slice_to_vec(&tmp.as_slice()[0..len]);
                assert(mark_bytes@ =~= tmp@.take(len as int));
                self.carry = Vec::new();
                let mk = self.apply_mark(mark_bytes, sub, exit, next);
                events.push(SnifferEvent::Mark(mk));
                proof {
                    lemma_reach_push(m0, Seq::empty(), events@.last(), true, st);
                    assert(events@ =~= Seq::<SnifferEvent>::empty().push(events@.last()));
                    assert(events@.drop_last() =~= Seq::<SnifferEvent>::empty());
                    assert(tmp@.take(len as int) =~= c0 + input@.take(len - cl));
                    lemma_apply_model_wf(m0, next);
                    assert(events_bytes(Seq::<SnifferEvent>::empty()) =~= Seq::<u8>::empty());
                }
                Some(len - cl)
            },
            Osc133::Incomplete => {
                if cl + take < OSC133_MAX {
                    assert(take == n);
                    assert(input@.take(take as int) =~= input@);
                    self.carry = tmp;
                    return None;
                }
                let mut carried: Vec<u8> = Vec::new();
                std::mem::swap(&mut carried, &mut self.carry);
                self.reset_boundary_state();
                self.emit_segment(events, carried.as_slice(), false);
                proof {
                    lemma_reach_push(m0, Seq::empty(), events@.last(), true, st);
                    assert(events@ =~= Seq::<SnifferEvent>::empty().push(events@.last()));
                    assert(events@.drop_last() =~= Seq::<SnifferEvent>::empty());
                    assert(events_bytes(Seq::<SnifferEvent>::empty()) =~= Seq::<u8>::empty());
                    assert(st.skip(0) =~= st);
                    assert(agrees_with_prefix(c0));
                    assert(c0[0] == osc133_prefix()[0]);
                    assert(input@.take(0) =~= Seq::<u8>::empty());
                    assert(c0 + input@.take(0) =~= c0);
                    assert(events_bytes(Seq::<SnifferEvent>::empty()) =~= Seq::<u8>::empty());
                }
                Some(0)
            },
            Osc133::NotMark => {
                let mut carried: Vec<u8> = Vec::new();
                std::mem::swap(&mut carried, &mut self.carry);
                self.emit_segment(events, carried.as_slice(), false);
                proof {
                    lemma_reach_push(m0, Seq::empty(), events@.last(), true, st);
                    assert(events@ =~= Seq::<SnifferEvent>::empty().push(events@.last()));
                    assert(events@.drop_last() =~= Seq::<SnifferEvent>::empty());
                    assert(events_bytes(Seq::<SnifferEvent>::empty()) =~= Seq::<u8>::empty());
                    assert(st.skip(0) =~= st);
                    assert(c0 + input@.take(0) =~= c0);
                    assert(events_bytes(Seq::<SnifferEvent>::empty()) =~= Seq::<u8>::empty());
                }
                Some(0)
            },
            Osc133::Malformed => {
                let mut carried: Vec<u8> = Vec::new();
                std::mem::swap(&mut carried, &mut self.carry);
                self.reset_boundary_state();
                self.emit_segment(events, carried.as_slice(), false);
                proof {
                    lemma_reach_push(m0, Seq::empty(), events@.last(), true, st);
                    assert(events@ =~= Seq::<SnifferEvent>::empty().push(events@.last()));
                    assert(events@.drop_last() =~= Seq::<SnifferEvent>::empty());
                    assert(events_bytes(Seq::<SnifferEvent>::empty()) =~= Seq::<u8>::empty());
                    assert(st.skip(0) =~= st);
                    assert(agrees_with_prefix(c0));
                    assert(c0[0] == osc133_prefix()[0]);
                    assert(c0 + input@.take(0) =~= c0);
                    assert(events_bytes(Seq::<SnifferEvent>::empty()) =~= Seq::<u8>::empty());
                }
                Some(0)
            },
        }
    }

    /// Forward the scanned run `input[seg_start..esc]`, if it is not empty.
    fn flush_run(
        &mut self,
        events: &mut Vec<SnifferEvent>,
        input: &[u8],
        seg_start: usize,
        esc: usize,
        Ghost(m0): Ghost<SnifferModel>,
        Ghost(cf): Ghost<bool>,
        Ghost(c0): Ghost<Seq<u8>>,
        Ghost(reset_pending): Ghost<bool>,
        Ghost(tc0): Ghost<Option<bool>>,
        Ghost(t0): Ghost<bool>,
    )
        requires
            seg_start <= esc <= input@.len(),
            old(self).carry@.len() == 0,
            old(self).wf(),
            old(self).tracks(m0, cf, old(events)@, reset_pending, c0 + input@),
            old(self).trust_inv(tc0, t0),
            events_bytes(old(events)@) == c0 + input@.take(seg_start as int),
            reset_pending == (seg_start < esc && input@[seg_start as int] == 0x1bu8 && osc133_spec(
                input@.skip(seg_start as int),
            ) is Malformed),
            run_clean(input@, seg_start as int, esc as int),
            follows_run(old(events)@, cf) ==> reset_pending,
        ensures
            final(self).wf(),
            final(self).carry@.len() == 0,
            final(self).trust_inv(tc0, t0),
            final(self).tracks(m0, cf, final(events)@, false, c0 + input@),
            events_bytes(final(events)@) == c0 + input@.take(esc as int),
            esc > seg_start ==> follows_run(final(events)@, cf),
            esc == seg_start ==> final(events)@ == old(events)@,
    {
        if esc > seg_start {
            proof {
                lemma_run_ok(c0, input@, seg_start as int, esc as int);
            }
            let seg = &input[seg_start..esc];
            assert(seg@ =~= input@.subrange(seg_start as int, esc as int));
            self.scan_segment(
                events,
                seg,
                Ghost(m0),
                Ghost(cf),
                Ghost(reset_pending),
                Ghost(tc0),
                Ghost(t0),
                Ghost(c0 + input@),
            );
            assert(input@.take(seg_start as int) + seg@ =~= input@.take(esc as int));
            assert(c0 + input@.take(seg_start as int) + seg@ =~= c0 + input@.take(esc as int));
        }
    }

    /// Scan `input` from `pos` to the next ESC and act on what starts there.
    /// Returns the next scan position and run start, whether a
    /// resynchronization is pending, and whether the read ended in a carried
    /// mark.
    #[verifier::rlimit(40)]
    fn scan_run(
        &mut self,
        events: &mut Vec<SnifferEvent>,
        input: &[u8],
        pos: usize,
        seg_start: usize,
        Ghost(m0): Ghost<SnifferModel>,
        Ghost(cf): Ghost<bool>,
        Ghost(c0): Ghost<Seq<u8>>,
        Ghost(reset_pending): Ghost<bool>,
        Ghost(tc0): Ghost<Option<bool>>,
        Ghost(t0): Ghost<bool>,
    ) -> (r: (usize, usize, Ghost<bool>, bool))
        requires
            seg_start <= pos < input@.len(),
            old(self).carry@.len() == 0,
            old(self).wf(),
            old(self).tracks(m0, cf, old(events)@, reset_pending, c0 + input@),
            old(self).trust_inv(tc0, t0),
            events_bytes(old(events)@) == c0 + input@.take(seg_start as int),
            reset_pending == (seg_start < pos && input@[seg_start as int] == 0x1bu8 && osc133_spec(
                input@.skip(seg_start as int),
            ) is Malformed),
            run_clean(input@, seg_start as int, pos as int),
            follows_run(old(events)@, cf) ==> reset_pending,
        ensures
            final(self).wf(),
            final(self).trust_inv(tc0, t0),
            !r.3 ==> run_clean(input@, r.1 as int, r.0 as int),
            !r.3 ==> (follows_run(final(events)@, cf) ==> r.2@),
            r.3 ==> events_bytes(final(events)@) + final(self).carry@ == c0 + input@
                && final(self).tracks(m0, cf, final(events)@, false, c0 + input@),
            !r.3 ==> pos < r.0 <= input@.len() && r.1 <= r.0 && final(self).carry@.len() == 0
                && final(self).tracks(m0, cf, final(events)@, r.2@, c0 + input@) && events_bytes(
                final(events)@,
            ) == c0 + input@.take(r.1 as int) && (r.2@ == (r.1 < r.0 && input@[r.1 as int]
                == 0x1bu8 && osc133_spec(input@.skip(r.1 as int)) is Malformed)),
    {
        let n = input.len();
        let rest_scan = &input[pos..n];
        assert(rest_scan@ =~= input@.subrange(pos as int, n as int));
        let found = find_byte(0x1bu8, rest_scan);
        let esc = match found {
            None => n,
            Some(off) => pos + off,
        };
        proof {
            assert forall|q: int| pos <= q < esc implies input@[q] != 0x1bu8 by {
                assert(rest_scan@[q - pos] == input@[q]);
            }
            lemma_run_extend(input@, seg_start as int, pos as int, esc as int);
        }
        if esc == n {
            return (n, seg_start, Ghost(reset_pending), false);
        }
        assert(rest_scan@[esc - pos] == input@[esc as int]);
        let rest = &input[esc..n];
        assert(rest@ =~= input@.subrange(esc as int, n as int));
        assert(rest@ =~= input@.skip(esc as int));
        match parse_osc133(rest) {
            Osc133::Mark { len, sub, exit, next } => {
                self.flush_run(
                    events,
                    input,
                    seg_start,
                    esc,
                    Ghost(m0),
                    Ghost(cf),
                    Ghost(c0),
                    Ghost(reset_pending),
                    Ghost(tc0),
                    Ghost(t0),
                );
                proof {
                    lemma_mark_take(rest@);
                }
                let mark_bytes = vstd::slice::slice_to_vec(&input[esc..esc + len]);
                assert(mark_bytes@ =~= rest@.take(len as int));
                assert(input@.take(esc as int) + mark_bytes@ =~= input@.take(esc + len));
                assert(c0 + input@.take(esc as int) + mark_bytes@ =~= c0 + input@.take(
                    esc + len,
                ));
                self.scan_mark(
                    events,
                    mark_bytes,
                    sub,
                    exit,
                    next,
                    Ghost(m0),
                    Ghost(cf),
                    Ghost(tc0),
                    Ghost(t0),
                    Ghost(c0 + input@),
                );
                (esc + len, esc + len, Ghost(false), false)
            },
            Osc133::Incomplete => {
                self.flush_run(
                    events,
                    input,
                    seg_start,
                    esc,
                    Ghost(m0),
                    Ghost(cf),
                    Ghost(c0),
                    Ghost(reset_pending),
                    Ghost(tc0),
                    Ghost(t0),
                );
                let ghost mm = self.model();
                self.carry = vstd::slice::slice_to_vec(rest);
                assert(self.model() == mm);
                assert(input@.take(esc as int) + rest@ =~= input@);
                assert(c0 + input@.take(esc as int) + rest@ =~= c0 + input@);
                (n, n, Ghost(false), true)
            },
            Osc133::NotMark => (esc + 1, seg_start, Ghost(reset_pending), false),
            Osc133::Malformed => {
                self.flush_run(
                    events,
                    input,
                    seg_start,
                    esc,
                    Ghost(m0),
                    Ghost(cf),
                    Ghost(c0),
                    Ghost(reset_pending),
                    Ghost(tc0),
                    Ghost(t0),
                );
                let ghost before = events@;
                self.reset_boundary_state();
                proof {
                    let m = events_reach(m0, before, cf, c0 + input@).unwrap();
                    assert(self.model() == reset_model(m));
                }
                (esc + 1, esc, Ghost(true), false)
            },
        }
    }

    /// Feed one PTY read. Every byte is handed on, in order, as a segment
    /// tagged with the region it belongs to or as a mark. Each mark that
    /// starts in the read's bytes is reported as a mark; a run of ordinary
    /// bytes resets the lifecycle exactly when it starts at a malformed mark;
    /// a mark cut off at the end of the read is carried into the next one.
    /// Bytes carried from the previous read are resolved against the carry
    /// window only: a mark starting inside them (past their first byte) is
    /// passed on as text.
    #[verifier::rlimit(40)]
    pub fn feed(&mut self, input: &[u8]) -> (events: Vec<SnifferEvent>)
        requires
            old(self).wf(),
        ensures
            final(self).wf(),
            events_bytes(events@) + final(self).carried() == old(self).carried() + input@,
            events_reach(
                old(self).model(),
                events@,
                old(self).carried().len() > 0,
                old(self).carried() + input@,
            ) == Some(final(self).model()),
            (final(self).pending_trust_change() == old(self).pending_trust_change()
                && final(self).model().trusted == old(self).model().trusted)
                || final(self).pending_trust_change() == Some(final(self).model().trusted),
    {
        let ghost m0 = self.model();
        let ghost c0 = self.carry@;
        let ghost cf = c0.len() > 0;
        let ghost tc0 = self.trust_changed;
        let ghost t0 = self.trusted;
        let mut events: Vec<SnifferEvent> = Vec::new();
        let n = input.len();
        let mut pos: usize = 0;
        if self.carry.len() > 0 {
            match self.resolve_carry(&mut events, input) {
                None => {
                    assert(events_bytes(events@) =~= Seq::<u8>::empty());
                    return events;
                },
                Some(p) => {
                    pos = p;
                },
            }
        } else {
            assert(events_bytes(events@) =~= Seq::<u8>::empty());
            assert(c0 =~= Seq::<u8>::empty());
            assert(events_reach(m0, events@, cf, c0 + input@) == Some(m0));
        }
        let mut seg_start: usize = pos;
        let ghost mut reset_pending = false;
        while pos < n
            invariant
                seg_start <= pos <= n,
                n == input@.len(),
                self.carry@.len() == 0,
                self.wf(),
                self.tracks(m0, cf, events@, reset_pending, c0 + input@),
                self.trust_inv(tc0, t0),
                events_bytes(events@) == c0 + input@.take(seg_start as int),
                reset_pending == (seg_start < pos && input@[seg_start as int] == 0x1bu8
                    && osc133_spec(input@.skip(seg_start as int)) is Malformed),
                run_clean(input@, seg_start as int, pos as int),
                follows_run(events@, cf) ==> reset_pending,
                m0 == old(self).model(),
                c0 == old(self).carry@,
                cf == (c0.len() > 0),
                tc0 == old(self).trust_changed,
                t0 == old(self).trusted,
            decreases n - pos,
        {
            let (p2, s2, Ghost(rp2), done) = self.scan_run(
                &mut events,
                input,
                pos,
                seg_start,
                Ghost(m0),
                Ghost(cf),
                Ghost(c0),
                Ghost(reset_pending),
                Ghost(tc0),
                Ghost(t0),
            );
            if done {
                return events;
            }
            pos = p2;
            seg_start = s2;
            proof {
                reset_pending = rp2;
            }
        }
        if n > seg_start {
            let seg = &input[seg_start..n];
            assert(seg@ =~= input@.subrange(seg_start as int, n as int));
            proof {
                lemma_run_ok(c0, input@, seg_start as int, n as int);
            }
            self.scan_segment(
                &mut events,
                seg,
                Ghost(m0),
                Ghost(cf),
                Ghost(reset_pending),
                Ghost(tc0),
                Ghost(t0),
                Ghost(c0 + input@),
            );
            assert(input@.take(seg_start as int) + seg@ =~= input@);
        } else {
            assert(input@.take(n as int) =~= input@);
        }
        events
    }

    fn advance_lifecycle(&mut self, r: PromptRegion) -> (ok: bool)
        ensures
            ok == (lifecycle_step(old(self).lifecycle, r) is Some),
            ok ==> final(self).lifecycle == lifecycle_step(old(self).lifecycle, r).unwrap(),
            !ok ==> final(self).lifecycle == old(self).lifecycle,
            final(self).trusted == (old(self).trusted || (ok && old(self).lifecycle
                == Lifecycle::InOutput && r == PromptRegion::Outside)),
            final(self).trust_changed == (if final(self).trusted != old(self).trusted {
                Some(final(self).trusted)
            } else {
                old(self).trust_changed
            }),
            final(self).region == old(self).region,
            final(self).carry == old(self).carry,
            final(self).command_buf == old(self).command_buf,
            final(self).command_started_at == old(self).command_started_at,
            final(self).current_command == old(self).current_command,
            final(self).prompt_start_edge == old(self).prompt_start_edge,
            final(self).command_started_edge == old(self).command_started_edge,
            final(self).command_finished == old(self).command_finished,
            final(self).history_cleared_edge == old(self).history_cleared_edge,
    {
        match (self.lifecycle, r) {
            (Lifecycle::AwaitPrompt, PromptRegion::Prompt) | (
                Lifecycle::InPrompt,
                PromptRegion::Prompt,
            ) => {
                self.lifecycle = Lifecycle::InPrompt;
                true
            },
            (Lifecycle::InPrompt, PromptRegion::Command) => {
                self.lifecycle = Lifecycle::InCommand;
                true
            },
            (Lifecycle::InCommand, PromptRegion::Output) => {
                self.lifecycle = Lifecycle::InOutput;
                true
            },
            (Lifecycle::InOutput, PromptRegion::Outside) => {
                self.lifecycle = Lifecycle::AwaitPrompt;
                self.set_boundary_trust(true);
                true
            },
            _ => false,
        }
    }
}


/// A scanned run of `input`, read within the stream `c0 + input`, holds no
/// mark, and resets exactly when it starts at a malformed mark.
proof fn lemma_run_ok(c0: Seq<u8>, input: Seq<u8>, a: int, b: int)
    requires
        0 <= a < b <= input.len(),
        run_clean(input, a, b),
    ensures
        scan_run_ok(input.subrange(a, b), (c0 + input).skip(c0.len() + a)),
        scan_run_resets(input.subrange(a, b), (c0 + input).skip(c0.len() + a)) == (input[a]
            == 0x1bu8 && osc133_spec(input.skip(a)) is Malformed),
{
    let seg = input.subrange(a, b);
    let rest = (c0 + input).skip(c0.len() + a);
    assert forall|k: int| 0 <= k < seg.len() implies #[trigger] rest.skip(k) =~= input.skip(a + k) by {
        assert(rest.skip(k) =~= input.skip(a + k));
    }
    assert(rest =~= input.skip(a)) by {
        assert(rest.skip(0) =~= rest);
    }
    assert forall|k: int|
        0 <= k < seg.len() && seg[k] == 0x1bu8 implies (osc133_spec(#[trigger] rest.skip(k)) is NotMark
            || (k == 0 && osc133_spec(rest.skip(k)) is Malformed)) by {
        assert(input[a + k] == 0x1bu8);
        assert(rest.skip(k) =~= input.skip(a + k));
    }
}

/// Extending a clean run over bytes that hold no ESC keeps it clean.
proof fn lemma_run_extend(input: Seq<u8>, a: int, p: int, e: int)
    requires
        a <= p <= e <= input.len(),
        run_clean(input, a, p),
        forall|q: int| p <= q < e ==> input[q] != 0x1bu8,
    ensures
        run_clean(input, a, e),
{
}

proof fn lemma_reach_push(
    m0: SnifferModel,
    evs: Seq<SnifferEvent>,
    e: SnifferEvent,
    cf: bool,
    s: Seq<u8>,
)
    ensures
        events_reach(m0, evs.push(e), cf, s) == (match events_reach(m0, evs, cf, s) {
            Some(m) => event_step(
                m,
                e,
                cf && evs.len() == 0,
                follows_run(evs, cf),
                s.skip(events_bytes(evs).len() as int),
            ),
            None => None,
        }),
        events_bytes(evs.push(e)) == events_bytes(evs) + event_bytes(e),
{
    assert(evs.push(e).drop_last() =~= evs);
    assert(evs.push(e).last() == e);
}


proof fn lemma_apply_model_wf(m: SnifferModel, next: Option<PromptRegion>)
    requires
        model_wf(m),
    ensures
        model_wf(apply_model(m, next)),
{
}

proof fn lemma_first_terminator_prefix(s: Seq<u8>, t: Seq<u8>, from: int, e1: int, e2: int)
    requires
        s.len() <= t.len(),
        forall|k: int| 0 <= k < s.len() ==> s[k] == t[k],
        0 <= from,
        e1 <= e2,
        e1 <= s.len(),
        e2 <= t.len(),
    ensures
        first_terminator(s, from, e1) < e1 ==> first_terminator(t, from, e2) == first_terminator(
            s,
            from,
            e1,
        ),
        first_terminator(s, from, e1) >= e1 ==> first_terminator(t, from, e2) >= e1,
    decreases e1 - from,
{
    if from < e1 {
        if !is_terminator_start(s[from]) {
            lemma_first_terminator_prefix(s, t, from + 1, e1, e2);
        }
    } else {
        lemma_first_terminator_ge(t, from, e2);
    }
}

proof fn lemma_first_terminator_ge(t: Seq<u8>, from: int, e: int)
    ensures
        first_terminator(t, from, e) >= from || first_terminator(t, from, e) == e,
    decreases e - from,
{
    if from < e && !is_terminator_start(t[from]) {
        lemma_first_terminator_ge(t, from + 1, e);
    }
}

/// A run that reads as an incomplete mark still reads as one, or as a mark
/// that ends beyond it, when more bytes follow.
proof fn lemma_incomplete_then_mark(s: Seq<u8>, t: Seq<u8>)
    requires
        osc133_spec(s) is Incomplete,
        s.len() <= t.len(),
        forall|k: int| 0 <= k < s.len() ==> s[k] == t[k],
    ensures
        osc133_spec(t) matches Osc133::Mark { len, .. } ==> len > s.len(),
{
    if osc133_spec(t) is Mark {
        let end_t = if t.len() < 32 { t.len() as int } else { 32 };
        lemma_first_terminator_bounds_s(t, 6, end_t);
        let ft_t = first_terminator(t, 6, end_t);
        if s.len() > 6 {
            let end_s = if s.len() < 32 { s.len() as int } else { 32 };
            lemma_first_terminator_bounds_s(s, 6, end_s);
            lemma_first_terminator_prefix(s, t, 6, end_s, end_t);
            let ft_s = first_terminator(s, 6, end_s);
            if ft_s >= end_s {
                assert(s.len() < 32);
                assert(ft_t >= s.len());
            } else {
                assert(ft_t == ft_s);
                assert(s[ft_s] == 0x1bu8);
                assert(ft_s + 1 == s.len());
                assert(t[ft_t] == 0x1bu8);
            }
        }
    }
}

/// A mark read from a longer run reads the same when cut to its length.
proof fn lemma_mark_take(s: Seq<u8>)
    requires
        osc133_spec(s) is Mark,
    ensures
        osc133_spec(s) matches Osc133::Mark { len, .. } ==> len <= s.len() && osc133_spec(
            s.take(len as int),
        ) == osc133_spec(s),
{
    if let Osc133::Mark { len, .. } = osc133_spec(s) {
        let end = if s.len() < 32 { s.len() as int } else { 32 };
        let t = first_terminator(s, 6, end);
        lemma_first_terminator_bounds_s(s, 6, end);
        assert(t < end);
        let u = s.take(len as int);
        let end_u = if u.len() < 32 { u.len() as int } else { 32 };
        assert(agrees_with_prefix(u));
        lemma_first_terminator_prefix_same(s, u, 6, t, end, end_u);
        if s[6] == 0x44u8 {
            assert(t >= 7);
            assert(u.subrange(7, t) =~= s.subrange(7, t));
        }
    }
}

proof fn lemma_first_terminator_bounds_s(s: Seq<u8>, from: int, end: int)
    requires
        from <= end,
    ensures
        from <= first_terminator(s, from, end) <= end,
        first_terminator(s, from, end) < end ==> is_terminator_start(
            s[first_terminator(s, from, end)],
        ),
    decreases end - from,
{
    if from < end && !is_terminator_start(s[from]) {
        lemma_first_terminator_bounds_s(s, from + 1, end);
    }
}

/// Two runs agreeing up to a terminator at `t` find it at the same place.
proof fn lemma_first_terminator_prefix_same(
    s: Seq<u8>,
    u: Seq<u8>,
    from: int,
    t: int,
    e1: int,
    e2: int,
)
    requires
        from <= t,
        t < e1,
        t < e2,
        t < s.len(),
        t < u.len(),
        forall|k: int| from <= k <= t ==> s[k] == u[k],
        first_terminator(s, from, e1) == t,
    ensures
        first_terminator(u, from, e2) == t,
    decreases t - from,
{
    assert(s[from] == u[from]);
    if from < t {
        assert(!is_terminator_start(s[from]));
        lemma_first_terminator_prefix_same(s, u, from + 1, t, e1, e2);
    } else {
        lemma_first_terminator_bounds_s(s, from + 1, e1);
        assert(is_terminator_start(s[from]));
    }
}

/// Boundary trust is only ever gained by a `;D` that closes the output of
/// an ordered prompt/command/output cycle.
pub proof fn lemma_trust_only_from_completed_cycle(m: SnifferModel, next: Option<PromptRegion>)
    requires
        !m.trusted,
        apply_model(m, next).trusted,
    ensures
        m.lifecycle == Lifecycle::InOutput,
        next == Some(PromptRegion::Outside),
{
}

/// A mark outside the ordered cycle drops trust and resynchronizes to the
/// start of the lifecycle.
pub proof fn lemma_invalid_mark_drops_trust(m: SnifferModel, next: Option<PromptRegion>)
    requires
        next is Some,
        !mark_valid(m, next),
    ensures
        apply_model(m, next) == reset_model(m),
        !apply_model(m, next).trusted,
{
}

/// From the start of a lifecycle, the marks `;A`, `;B`, `;C`, `;D` in order
/// grant trust (the synthetic cycle a shell integration emits at startup
/// does exactly this).
pub proof fn lemma_ordered_cycle_grants_trust(m: SnifferModel)
    requires
        model_wf(m),
        m.region == PromptRegion::Outside,
    ensures
        ({
            let m1 = apply_model(m, Some(PromptRegion::Prompt));
            let m2 = apply_model(m1, Some(PromptRegion::Command));
            let m3 = apply_model(m2, Some(PromptRegion::Output));
            let m4 = apply_model(m3, Some(PromptRegion::Outside));
            &&& m4.trusted
            &&& m4.region == PromptRegion::Outside
            &&& m4.lifecycle == Lifecycle::AwaitPrompt
        }),
{
}

/// Trust, once granted, survives every mark that continues the cycle.
pub proof fn lemma_valid_marks_keep_trust(m: SnifferModel, next: Option<PromptRegion>)
    requires
        m.trusted,
        mark_valid(m, next),
    ensures
        apply_model(m, next).trusted,
{
}



/// Every ESC of `s` in `[a, b)` was examined and starts an ordinary escape,
/// but for one at `a`, which may start a malformed mark.
pub open spec fn run_clean(s: Seq<u8>, a: int, b: int) -> bool {
    forall|q: int|
        a <= q < b && s[q] == 0x1bu8 ==> (osc133_spec(#[trigger] s.skip(q)) is NotMark || (q == a
            && osc133_spec(s.skip(q)) is Malformed))
}








/// The byte strings `ss` one after another.
pub open spec fn joined(ss: Seq<Seq<u8>>) -> Seq<u8>
    decreases ss.len(),
{
    if ss.len() == 0 {
        Seq::empty()
    } else {
        joined(ss.drop_last()) + ss.last()
    }
}

/// Across any number of reads, every byte reaches the events once and in
/// order, however the reads are split: when read `i` of `inputs` hands on
/// `outs[i]` and leaves `carries[i + 1]` carried after `carries[i]` (what
/// `feed` ensures of each read), all that was handed on, followed by what
/// is still carried, is what was carried at first followed by all inputs.
pub proof fn lemma_reads_forward_in_order(
    carries: Seq<Seq<u8>>,
    inputs: Seq<Seq<u8>>,
    outs: Seq<Seq<u8>>,
)
    requires
        outs.len() == inputs.len(),
        carries.len() == inputs.len() + 1,
        forall|i: int| 0 <= i < inputs.len() ==> #[trigger] outs[i] + carries[i + 1] == carries[i] + inputs[i],
    ensures
        joined(outs) + carries.last() == carries[0] + joined(inputs),
    decreases inputs.len(),
{
    let n = inputs.len() as int;
    if n == 0 {
        assert(joined(outs) =~= Seq::<u8>::empty());
        assert(joined(inputs) =~= Seq::<u8>::empty());
        assert(Seq::<u8>::empty() + carries[0] =~= carries[0]);
        assert(carries[0] + Seq::<u8>::empty() =~= carries[0]);
    } else {
        let c1 = carries.drop_last();
        let i1 = inputs.drop_last();
        let o1 = outs.drop_last();
        assert forall|i: int| 0 <= i < i1.len() implies #[trigger] o1[i] + c1[i + 1] == c1[i] + i1[i] by {
            assert(outs[i] + carries[i + 1] == carries[i] + inputs[i]);
        }
        lemma_reads_forward_in_order(c1, i1, o1);
        let a = joined(o1);
        let b = joined(i1);
        assert(outs[n - 1] + carries[n] == carries[n - 1] + inputs[n - 1]);
        assert(a + c1.last() == carries[0] + b);
        assert(joined(outs) + carries.last() =~= a + (outs[n - 1] + carries[n]));
        assert(a + (carries[n - 1] + inputs[n - 1]) =~= (a + c1.last()) + inputs[n - 1]);
        assert((carries[0] + b) + inputs[n - 1] =~= carries[0] + joined(inputs));
    }
}

} // verus!
