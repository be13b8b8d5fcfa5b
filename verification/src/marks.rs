//! What a recognized OSC 133 mark asks of the session at its exact stream
//! position: sequence numbering of prompts, the launch directory latched at
//! command start and attached at command finish, freezing a finished
//! command into an engine block, and clearing history. The caller writes
//! the mark's bytes to the engine first, reads the engine's current
//! directory and alternate-screen mode, and then performs the actions in
//! order.

use vstd::prelude::*;

use crate::sniffer::{CommandCapture, CommandStart, SnifferMark};

verus! {

/// Mark bookkeeping carried across reads: the sequence number of the
/// current prompt, and the launch directory latched at the last command
/// start (`Some(None)` when the engine knew none).
pub struct MarkLedger {
    pub mark_seq: u64,
    pub launch_cwd: Option<Option<String>>,
}

/// One thing the session does for a mark, in order.
pub enum MarkAction {
    /// A trusted prompt started.
    PromptStarted,
    /// A trusted command started, stamped with its prompt's sequence
    /// number and launch directory.
    CommandStarted(CommandStart),
    /// Freeze the finished command into an engine block of prompt `seq`
    /// and clear the grid for the next command.
    FinishBlock { seq: u64 },
    /// A command finished, stamped with its prompt's sequence number and
    /// launch directory.
    CommandFinished(CommandCapture),
    /// Drop every finished block and clear the grid.
    HistoryCleared,
}

pub open spec fn started_action(
    start: CommandStart,
    seq: u64,
    cwd: Option<String>,
) -> MarkAction {
    MarkAction::CommandStarted(CommandStart { seq, cwd, ..start })
}

pub open spec fn finished_action(cmd: CommandCapture, seq: u64, cwd: Option<String>) -> MarkAction {
    MarkAction::CommandFinished(CommandCapture { seq, cwd, ..cmd })
}

/// The actions for `mark`, and the ledger after it.
pub open spec fn mark_actions(
    ledger: (u64, Option<Option<String>>),
    mark: SnifferMark,
    current_directory: Option<String>,
    in_alt_screen: bool,
    engine_blocks: bool,
) -> (Seq<MarkAction>, (u64, Option<Option<String>>)) {
    let (seq0, cwd0) = ledger;
    let prompt = mark.prompt_started && mark.trusted;
    let seq: u64 = if prompt {
        (seq0 + 1) as u64
    } else {
        seq0
    };
    let a1: Seq<MarkAction> = if prompt {
        seq![MarkAction::PromptStarted]
    } else {
        seq![]
    };
    let (a2, cwd1) = match mark.command_started {
        Some(start) => (
            seq![started_action(start, seq, current_directory)],
            Some(current_directory),
        ),
        None => (seq![], cwd0),
    };
    let (a3, cwd2) = match mark.command_finished {
        Some(cmd) => {
            let launch = match cwd1 {
                Some(c) => c,
                None => None,
            };
            let freeze: Seq<MarkAction> = if mark.trusted && !in_alt_screen && engine_blocks {
                seq![MarkAction::FinishBlock { seq }]
            } else {
                seq![]
            };
            (freeze.push(finished_action(cmd, seq, launch)), None)
        },
        None => (seq![], cwd1),
    };
    let a4: Seq<MarkAction> = if mark.history_cleared && mark.trusted && engine_blocks
        && !in_alt_screen {
        seq![MarkAction::HistoryCleared]
    } else {
        seq![]
    };
    (a1 + a2 + a3 + a4, (seq, cwd2))
}

/// Apply a recognized mark: returns the actions to perform in order,
/// updating the ledger.
pub fn apply_sniffer_mark(
    ledger: &mut MarkLedger,
    mark: SnifferMark,
    current_directory: Option<String>,
    in_alt_screen: bool,
    engine_blocks: bool,
) -> (actions: Vec<MarkAction>)
    requires
        mark.prompt_started && mark.trusted ==> old(ledger).mark_seq < u64::MAX,
    ensures
        ({
            let (acts, after) = mark_actions(
                (old(ledger).mark_seq, old(ledger).launch_cwd),
                mark,
                current_directory,
                in_alt_screen,
                engine_blocks,
            );
            &&& actions@ == acts
            &&& final(ledger).mark_seq == after.0
            &&& final(ledger).launch_cwd == after.1
        }),
{
    let ghost m = mark;
    let ghost old_ledger = (ledger.mark_seq, ledger.launch_cwd);
    let ghost cd = current_directory;
    let SnifferMark {
        bytes: _,
        trusted,
        prompt_started,
        command_started,
        command_finished,
        history_cleared,
    } = mark;
    let mut actions: Vec<MarkAction> = Vec::new();
    if prompt_started && trusted {
        ledger.mark_seq = ledger.mark_seq + 1;
        actions.push(MarkAction::PromptStarted);
    }
    if let Some(start) = command_started {
        let cwd = current_directory;
        let latched = match &cwd {
            Some(c) => Some(c.clone()),
            None => None,
        };
        ledger.launch_cwd = Some(latched);
        actions.push(
            MarkAction::CommandStarted(
                CommandStart {
                    seq: ledger.mark_seq,
                    command: start.command,
                    cwd,
                    started_at: start.started_at,
                },
            ),
        );
    }
    if let Some(cmd) = command_finished {
        let mut taken: Option<Option<String>> = None;
        std::mem::swap(&mut taken, &mut ledger.launch_cwd);
        let cwd = match taken {
            Some(c) => c,
            None => None,
        };
        if trusted && !in_alt_screen && engine_blocks {
            actions.push(MarkAction::FinishBlock { seq: ledger.mark_seq });
        }
        actions.push(
            MarkAction::CommandFinished(
                CommandCapture {
                    seq: ledger.mark_seq,
                    command: cmd.command,
                    exit_code: cmd.exit_code,
                    cwd,
                    started_at: cmd.started_at,
                    ended_at: cmd.ended_at,
                },
            ),
        );
    }
    if history_cleared && trusted && engine_blocks && !in_alt_screen {
        actions.push(MarkAction::HistoryCleared);
    }
    assert(actions@ =~= mark_actions(old_ledger, m, cd, in_alt_screen, engine_blocks).0);
    actions
}

/// A finished command reports the directory latched when it started, not
/// the one the engine holds when it finishes (a `cd` reports where it was
/// launched), and the latch is spent by the finish.
pub proof fn lemma_finish_reports_launch_directory(
    ledger: (u64, Option<Option<String>>),
    start: SnifferMark,
    at_start: Option<String>,
    finish: SnifferMark,
    at_finish: Option<String>,
    in_alt_screen: bool,
    engine_blocks: bool,
)
    requires
        start.command_started is Some,
        start.command_finished is None,
        finish.command_started is None,
        finish.command_finished is Some,
    ensures
        ({
            let (_, after_start) = mark_actions(ledger, start, at_start, in_alt_screen, engine_blocks);
            let (acts, after_finish) = mark_actions(
                after_start,
                finish,
                at_finish,
                in_alt_screen,
                engine_blocks,
            );
            &&& acts.contains(
                finished_action(finish.command_finished.unwrap(), after_finish.0, at_start),
            )
            &&& after_finish.1 is None
        }),
{
    let (_, after_start) = mark_actions(ledger, start, at_start, in_alt_screen, engine_blocks);
    let (acts, after_finish) = mark_actions(after_start, finish, at_finish, in_alt_screen, engine_blocks);
    let prompt = finish.prompt_started && finish.trusted;
    let freeze = finish.trusted && !in_alt_screen && engine_blocks;
    let i: int = (if prompt { 1int } else { 0int }) + (if freeze { 1int } else { 0int });
    assert(acts[i] == finished_action(finish.command_finished.unwrap(), after_finish.0, at_start));
}

/// Only a trusted prompt start advances the prompt sequence, by one.
pub proof fn lemma_sequence_counts_trusted_prompts(
    ledger: (u64, Option<Option<String>>),
    mark: SnifferMark,
    current_directory: Option<String>,
    in_alt_screen: bool,
    engine_blocks: bool,
)
    requires
        ledger.0 < u64::MAX,
    ensures
        mark_actions(ledger, mark, current_directory, in_alt_screen, engine_blocks).1.0 == ledger.0
            + if mark.prompt_started && mark.trusted {
            1int
        } else {
            0int
        },
{
}


/// A finished command is frozen into an engine block exactly when engine
/// blocks are on, the mark is trusted and the alternate screen is off; the
/// same gate governs clearing history. With engine blocks off, no mark ever
/// freezes a block or clears history.
pub proof fn lemma_blocks_need_engine_blocks(
    ledger: (u64, Option<Option<String>>),
    mark: SnifferMark,
    current_directory: Option<String>,
    in_alt_screen: bool,
    engine_blocks: bool,
)
    ensures
        ({
            let acts = mark_actions(ledger, mark, current_directory, in_alt_screen, engine_blocks).0;
            &&& (exists|k: int| 0 <= k < acts.len() && #[trigger] acts[k] is FinishBlock) <==> (
            mark.command_finished is Some && mark.trusted && !in_alt_screen && engine_blocks)
            &&& (exists|k: int| 0 <= k < acts.len() && #[trigger] acts[k] is HistoryCleared) <==> (
            mark.history_cleared && mark.trusted && !in_alt_screen && engine_blocks)
            &&& !engine_blocks ==> forall|k: int|
                0 <= k < acts.len() ==> !(#[trigger] acts[k] is FinishBlock) && !(
                acts[k] is HistoryCleared)
        }),
{
    let acts = mark_actions(ledger, mark, current_directory, in_alt_screen, engine_blocks).0;
    let prompt = mark.prompt_started && mark.trusted;
    let n1: int = if prompt { 1 } else { 0 };
    let n2: int = if mark.command_started is Some { 1 } else { 0 };
    let freeze = mark.command_finished is Some && mark.trusted && !in_alt_screen && engine_blocks;
    let n3: int = if mark.command_finished is Some { if freeze { 2 } else { 1 } } else { 0 };
    let clear = mark.history_cleared && mark.trusted && engine_blocks && !in_alt_screen;
    assert(acts.len() == n1 + n2 + n3 + if clear { 1int } else { 0int });
    assert forall|k: int| 0 <= k < acts.len() && #[trigger] acts[k] is FinishBlock implies freeze
        && k == n1 + n2 by {}
    assert forall|k: int| 0 <= k < acts.len() && #[trigger] acts[k] is HistoryCleared implies clear
        && k == n1 + n2 + n3 by {}
    if freeze {
        assert(acts[n1 + n2] is FinishBlock);
    }
    if clear {
        assert(acts[n1 + n2 + n3] is HistoryCleared);
    }
}


/// Each part of a mark gives its own action, and only then: a trusted
/// prompt start a `PromptStarted`, a command start a `CommandStarted`
/// stamped with the current directory and the prompt's sequence number, a
/// command finish a `CommandFinished` with that sequence number; a frozen
/// block comes right before its `CommandFinished`.
pub proof fn lemma_mark_actions_follow_the_mark(
    ledger: (u64, Option<Option<String>>),
    mark: SnifferMark,
    current_directory: Option<String>,
    in_alt_screen: bool,
    engine_blocks: bool,
)
    ensures
        ({
            let (acts, after) = mark_actions(
                ledger,
                mark,
                current_directory,
                in_alt_screen,
                engine_blocks,
            );
            &&& (exists|k: int| 0 <= k < acts.len() && #[trigger] acts[k] is PromptStarted) <==> (
            mark.prompt_started && mark.trusted)
            &&& (exists|k: int| 0 <= k < acts.len() && #[trigger] acts[k] is CommandStarted) <==> (
            mark.command_started is Some)
            &&& (exists|k: int| 0 <= k < acts.len() && #[trigger] acts[k] is CommandFinished) <==> (
            mark.command_finished is Some)
            &&& forall|k: int|
                0 <= k < acts.len() ==> (#[trigger] acts[k] matches MarkAction::CommandStarted(st)
                    ==> st.seq == after.0 && st.cwd == current_directory)
            &&& forall|k: int|
                0 <= k < acts.len() ==> (#[trigger] acts[k] matches MarkAction::CommandFinished(
                    cmd) ==> cmd.seq == after.0)
            &&& forall|k: int|
                0 <= k < acts.len() && #[trigger] acts[k] is FinishBlock ==> acts[k]->seq == after.0
                    && k + 1 < acts.len() && acts[k + 1] is CommandFinished
        }),
{
    let acts = mark_actions(ledger, mark, current_directory, in_alt_screen, engine_blocks).0;
    let prompt = mark.prompt_started && mark.trusted;
    let n1: int = if prompt { 1 } else { 0 };
    let n2: int = if mark.command_started is Some { 1 } else { 0 };
    let freeze = mark.command_finished is Some && mark.trusted && !in_alt_screen && engine_blocks;
    let n3: int = if mark.command_finished is Some { if freeze { 2 } else { 1 } } else { 0 };
    let clear = mark.history_cleared && mark.trusted && engine_blocks && !in_alt_screen;
    assert(acts.len() == n1 + n2 + n3 + if clear { 1int } else { 0int });
    if prompt {
        assert(acts[0] is PromptStarted);
    }
    if mark.command_started is Some {
        assert(acts[n1] is CommandStarted);
    }
    if mark.command_finished is Some {
        assert(acts[n1 + n2 + n3 - 1] is CommandFinished);
    }
    assert forall|k: int| 0 <= k < acts.len() && #[trigger] acts[k] is PromptStarted implies prompt
        && k == 0 by {}
    assert forall|k: int| 0 <= k < acts.len() && #[trigger] acts[k] is CommandStarted implies k
        == n1 && mark.command_started is Some by {}
    assert forall|k: int| 0 <= k < acts.len() && #[trigger] acts[k] is CommandFinished implies k
        == n1 + n2 + n3 - 1 && mark.command_finished is Some by {}
}

} // verus!
