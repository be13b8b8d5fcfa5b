//! The session surface's plain data and its small rules: engine errors,
//! row pages, pointer text of a row, and the mouse gestures that build a
//! screen selection.

use vstd::prelude::*;
use vstd::string::StrSliceExecFns;

use crate::frozen::BlockPoint;
use crate::mouse::{SurfaceCellSide, SurfaceMouseEventKind, SurfaceScreenCell};
use crate::pos::{Column, Direction, Line, Pos};
use crate::grid::VisibleGrid;
use crate::selection::{Selection, SelectionRange, SelectionType, WORD_DELIMITERS, selection_empty};
use crate::text::string_from_chars;

verus! {

/// Stable error categories for the shell's in-window error panel.
#[derive(Clone, Copy, Debug, PartialEq, Eq, Structural)]
pub enum EngineErrorCode {
    /// The PTY could not be spawned (bad shell, working directory, ...).
    PtySpawn,
    /// The terminal engine failed to start.
    EngineInit,
}

/// A structured engine failure.
#[derive(Debug)]
pub struct EngineError {
    pub code: EngineErrorCode,
    pub message: String,
}

impl EngineError {
    pub fn new(code: EngineErrorCode, message: String) -> (e: Self)
        ensures
            e.code == code,
            e.message@ == message@,
    {
        EngineError { code, message }
    }

    /// The error as shown: its message.
    pub fn to_string(&self) -> (s: String)
        ensures
            s@ == self.message@,
    {
        self.message.clone()
    }
}

/// Which surface a page of rows was read from.
#[derive(Clone, Copy, Debug, PartialEq, Eq, Hash, Structural)]
pub enum PageSource {
    Screen { revision: u64 },
    Block { id: u64, generation: u64, theme: u64 },
}

/// Whether a row-page request no longer matches the engine: a screen page
/// asked for at an older content revision, or a block page rendered with an
/// older theme. A stale request is answered `RequestError::Stale`.
pub fn page_request_stale(source: PageSource, current_revision: u64, theme_revision: u64) -> (r:
    bool)
    ensures
        r == match source {
            PageSource::Screen { revision } => revision != current_revision,
            PageSource::Block { theme, .. } => theme != theme_revision,
        },
{
    match source {
        PageSource::Screen { revision } => revision != current_revision,
        PageSource::Block { theme, .. } => theme != theme_revision,
    }
}

/// The texts of the selected pieces of several blocks, one after another,
/// separated by line breaks.
pub open spec fn joined_texts(parts: Seq<Seq<char>>) -> Seq<char>
    decreases parts.len(),
{
    if parts.len() == 0 {
        Seq::empty()
    } else if parts.len() == 1 {
        parts[0]
    } else {
        joined_texts(parts.drop_last()) + seq!['\n'] + parts.last()
    }
}

/// Join the texts read from several blocks with line breaks, as a copy of a
/// selection that spans blocks reads.
pub fn join_block_texts(parts: &Vec<String>) -> (r: String)
    ensures
        r@ == joined_texts(parts@.map_values(|p: String| p@)),
{
    let ghost ps = parts@.map_values(|p: String| p@);
    let mut out: Vec<char> = Vec::new();
    let mut i: usize = 0;
    while i < parts.len()
        invariant
            i <= parts@.len(),
            ps == parts@.map_values(|p: String| p@),
            out@ == joined_texts(ps.take(i as int)),
        decreases parts@.len() - i,
    {
        if i > 0 {
            out.push('\n');
        }
        let part = parts[i].as_str();
        let n = part.unicode_len();
        let mut k: usize = 0;
        let ghost before = out@;
        while k < n
            invariant
                k <= n,
                n == part@.len(),
                part@ == ps[i as int],
                out@ == before + part@.take(k as int),
            decreases n - k,
        {
            out.push(part.get_char(k));
            assert(part@.take(k as int + 1) =~= part@.take(k as int).push(part@[k as int]));
            k = k + 1;
        }
        proof {
            assert(part@.take(n as int) =~= part@);
            assert(ps.take(i as int + 1).drop_last() =~= ps.take(i as int));
            if i == 0 {
                assert(before =~= Seq::<char>::empty());
                assert(out@ =~= part@);
            }
        }
        i = i + 1;
    }
    assert(ps.take(parts@.len() as int) =~= ps);
    string_from_chars(out.as_slice())
}

/// Rows per page of the row cache.
pub const PAGE_ROWS: usize = 64;

/// The first row of the page holding `row`.
pub fn page_start(row: usize) -> (start: usize)
    ensures
        start == row / PAGE_ROWS * PAGE_ROWS,
        start <= row < start + PAGE_ROWS,
{
    row / PAGE_ROWS * PAGE_ROWS
}

/// A page of owned rows, `start` being the index of its first row.
pub struct RowPage<R> {
    pub source: PageSource,
    pub start: usize,
    pub cols: u16,
    pub rows: Vec<R>,
}

impl<R> RowPage<R> {
    /// The row with absolute index `index`, if this page holds it.
    pub fn row(&self, index: usize) -> (r: Option<&R>)
        ensures
            r == (if self.start <= index < self.start + self.rows@.len() {
                Some(&self.rows@[index - self.start])
            } else {
                None
            }),
    {
        if index < self.start {
            return None;
        }
        let i = index - self.start;
        if i < self.rows.len() {
            Some(&self.rows[i])
        } else {
            None
        }
    }
}

/// What changed in a session, as reported to an observer on the worker.
#[derive(Clone, Copy, Debug, PartialEq, Eq, Structural)]
pub enum SessionChange {
    Content,
    HostEvents,
}

/// Why a read request could not be answered.
#[derive(Debug, Clone)]
pub enum RequestError {
    Stale,
    Unavailable,
    Engine(String),
}

/// A terminal state checkpoint: VT bytes that rebuild it, at a size.
#[derive(Debug)]
pub struct Checkpoint {
    pub vt: Vec<u8>,
    pub cols: u16,
    pub rows: u16,
}

/// The command now executing, for the live chrome.
#[derive(Debug)]
pub struct InFlightBlock {
    pub command: Option<String>,
    pub started_at: std::time::SystemTime,
}

/// What the host shows of the shell's command lifecycle: the command now
/// running, and whether a trusted prompt is open.
pub struct ShellActivity {
    pub in_flight: Option<InFlightBlock>,
    pub open_prompt: bool,
}

impl ShellActivity {
    pub fn new() -> (a: Self)
        ensures
            a.in_flight is None,
            !a.open_prompt,
    {
        ShellActivity { in_flight: None, open_prompt: false }
    }

    /// A trusted prompt started.
    pub fn prompt_started(&mut self)
        ensures
            final(self).open_prompt,
            final(self).in_flight == old(self).in_flight,
    {
        self.open_prompt = true;
    }

    /// A trusted command started: it closes the prompt and is now running.
    pub fn command_started(&mut self, command: String, started_at: std::time::SystemTime)
        ensures
            !final(self).open_prompt,
            final(self).in_flight == Some(InFlightBlock { command: Some(command), started_at }),
    {
        self.open_prompt = false;
        self.in_flight = Some(InFlightBlock { command: Some(command), started_at });
    }

    /// The running command finished.
    pub fn command_finished(&mut self)
        ensures
            final(self).in_flight is None,
            final(self).open_prompt == old(self).open_prompt,
    {
        self.in_flight = None;
    }

    /// Boundary trust changed: losing it (a nested shell, a malformed
    /// stream) drops the running command, whose lifecycle can no longer
    /// complete, and closes the prompt.
    pub fn trust_changed(&mut self, trusted: bool)
        ensures
            trusted ==> final(self).in_flight == old(self).in_flight && final(self).open_prompt
                == old(self).open_prompt,
            !trusted ==> final(self).in_flight is None && !final(self).open_prompt,
    {
        if !trusted {
            self.in_flight = None;
            self.open_prompt = false;
        }
    }

    /// The shell exited: no finish is coming for a running command.
    pub fn closed(&mut self)
        ensures
            final(self).in_flight is None,
            !final(self).open_prompt,
    {
        self.in_flight = None;
        self.open_prompt = false;
    }
}

/// Which selection supplied a copy.
#[derive(Debug, Clone, Copy)]
pub enum CopiedSelection {
    Live(SelectionRange),
    Frozen(BlockPoint, BlockPoint),
    FrozenPending,
    Nothing,
}

/// Retains the selection that supplied a copy without letting a host
/// change it.
#[derive(Debug)]
pub struct CopyCompletion {
    pub selection: CopiedSelection,
    pub generation: u64,
}

/// A row's pointer text: one char per grid column, with the row's wrap
/// flag and hyperlinks (start column, end column, URI).
#[derive(Clone, Debug)]
pub struct RowText {
    pub text: String,
    pub wrapped: bool,
    pub hyperlinks: Vec<(u16, u16, String)>,
}

/// A cell of a row as the engine reads it: its column and text.
pub struct PointerCell {
    pub x: u16,
    pub text: String,
}

/// The first char of a cell's text, a space for none.
pub open spec fn pointer_char(text: Seq<char>) -> char {
    if text.len() > 0 {
        text[0]
    } else {
        ' '
    }
}

/// `chars` after taking the cell at `x`: padded with spaces up to `x`,
/// then the cell's char when it lands exactly at the end (a cell at a
/// column already filled is dropped).
pub open spec fn push_pointer_spec(chars: Seq<char>, x: int, text: Seq<char>) -> Seq<char> {
    let padded = if chars.len() < x {
        chars + Seq::new((x - chars.len()) as nat, |i: int| ' ')
    } else {
        chars
    };
    if padded.len() == x {
        padded.push(pointer_char(text))
    } else {
        padded
    }
}

pub open spec fn pointer_chars(cells: Seq<PointerCell>) -> Seq<char>
    decreases cells.len(),
{
    if cells.len() == 0 {
        Seq::empty()
    } else {
        push_pointer_spec(
            pointer_chars(cells.drop_last()),
            cells.last().x as int,
            cells.last().text@,
        )
    }
}

/// The pointer text of a row of `cols` columns holding `cells`.
pub open spec fn pointer_text(cells: Seq<PointerCell>, cols: int) -> Seq<char> {
    let c = pointer_chars(cells);
    if c.len() < cols {
        c + Seq::new((cols - c.len()) as nat, |i: int| ' ')
    } else {
        c
    }
}

fn pad_to(chars: &mut Vec<char>, n: usize)
    ensures
        final(chars)@ == (if old(chars)@.len() < n {
            old(chars)@ + Seq::new((n - old(chars)@.len()) as nat, |i: int| ' ')
        } else {
            old(chars)@
        }),
{
    let ghost start = chars@;
    while chars.len() < n
        invariant
            start.len() <= chars@.len() <= if start.len() < n {
                n as int
            } else {
                start.len() as int
            },
            chars@ == start + Seq::new((chars@.len() - start.len()) as nat, |i: int| ' '),
        decreases n - chars@.len(),
    {
        chars.push(' ');
    }
    assert(chars@ =~= (if start.len() < n {
        start + Seq::new((n - start.len()) as nat, |i: int| ' ')
    } else {
        start
    }));
}

/// Pointer text keeps grid columns by retaining the first codepoint of
/// each cell.
pub fn materialized_pointer_row(
    cells: &Vec<PointerCell>,
    wrapped: bool,
    hyperlinks: Vec<(u16, u16, String)>,
    cols: u16,
) -> (r: RowText)
    ensures
        r.text@ == pointer_text(cells@, cols as int),
        r.wrapped == wrapped,
        r.hyperlinks@ == hyperlinks@,
{
    let mut chars: Vec<char> = Vec::new();
    let mut i: usize = 0;
    while i < cells.len()
        invariant
            i <= cells@.len(),
            chars@ == pointer_chars(cells@.take(i as int)),
        decreases cells@.len() - i,
    {
        let cell = &cells[i];
        let x = cell.x as usize;
        pad_to(&mut chars, x);
        if chars.len() == x {
            let t = cell.text.as_str();
            let c = if t.unicode_len() > 0 {
                t.get_char(0)
            } else {
                ' '
            };
            chars.push(c);
        }
        proof {
            assert(cells@.take(i as int + 1).drop_last() =~= cells@.take(i as int));
        }
        i = i + 1;
    }
    assert(cells@.take(cells@.len() as int) =~= cells@);
    pad_to(&mut chars, cols as usize);
    RowText { text: string_from_chars(chars.as_slice()), wrapped, hyperlinks }
}

/// `range` with both rows moved down by `viewport_top`.
pub open spec fn rebased(range: SelectionRange, viewport_top: i32) -> SelectionRange {
    SelectionRange {
        start: Pos { row: Line((range.start.row.0 + viewport_top) as i32), col: range.start.col },
        end: Pos { row: Line((range.end.row.0 + viewport_top) as i32), col: range.end.col },
        is_block: range.is_block,
    }
}

/// Whether a range's rows stay in `i32` when moved down by `viewport_top`.
pub open spec fn rebase_fits(range: SelectionRange, viewport_top: i32) -> bool {
    &&& i32::MIN <= range.start.row.0 + viewport_top <= i32::MAX
    &&& i32::MIN <= range.end.row.0 + viewport_top <= i32::MAX
}

/// The selection as a SCREEN range over the visible `grid`, whose top row
/// is SCREEN row `viewport_top`: word and line boundaries are searched on
/// the visible rows, then the range is moved back to SCREEN rows.
pub fn selection_screen_range(selection: &Selection, grid: &VisibleGrid, viewport_top: i32) -> (r:
    Option<SelectionRange>)
    requires
        grid.wf(),
        selection.range_ok(grid.width(), viewport_top),
        selection.engine_range(grid@, viewport_top, WORD_DELIMITERS@) matches Some(rg)
            ==> rebase_fits(rg, viewport_top),
    ensures
        r == match selection.engine_range(grid@, viewport_top, WORD_DELIMITERS@) {
            Some(rg) => Some(rebased(rg, viewport_top)),
            None => None,
        },
{
    match selection.to_range_engine(grid, viewport_top, WORD_DELIMITERS) {
        Some(range) => {
            let mut range = range;
            range.start.row = Line(range.start.row.0 + viewport_top);
            range.end.row = Line(range.end.row.0 + viewport_top);
            Some(range)
        },
        None => None,
    }
}

/// The screen selection and the gestures that build it. Anchors are
/// screen coordinates, so a selection stays on its content while the
/// viewport scrolls.
pub struct SurfaceSelection {
    pub selection: Option<Selection>,
}

pub open spec fn side_of(side: SurfaceCellSide) -> Direction {
    match side {
        SurfaceCellSide::Left => Direction::Left,
        SurfaceCellSide::Right => Direction::Right,
    }
}

/// What a gesture at `pos` does to the selection `before`, leaving `after`
/// and answering `repaint`. A press starts a selection of `selection_type`
/// (repainting when it replaces one, or for a word or line pick); a move
/// extends the selection, if any; a release drops an empty selection.
pub open spec fn gesture_outcome(
    before: Option<Selection>,
    after: Option<Selection>,
    pos: Pos,
    side: SurfaceCellSide,
    kind: SurfaceMouseEventKind,
    selection_type: SelectionType,
    repaint: bool,
) -> bool {
    match kind {
        SurfaceMouseEventKind::Down => {
            &&& after matches Some(s) && s.kind() == selection_type && s.start_anchor().point == pos
                && s.start_anchor().side == side_of(side) && s.end_anchor() == s.start_anchor()
            &&& repaint == (before is Some || selection_type != SelectionType::Simple)
        },
        SurfaceMouseEventKind::Move => match before {
            None => !repaint && after is None,
            Some(old_sel) => repaint && (after matches Some(s) && s.kind() == old_sel.kind()
                && s.start_anchor() == old_sel.start_anchor() && s.end_anchor().point == pos
                && s.end_anchor().side == side_of(side)),
        },
        SurfaceMouseEventKind::Up => {
            &&& !repaint
            &&& match before {
                Some(s) => if selection_empty(s.kind(), s.start_anchor(), s.end_anchor()) {
                    after is None
                } else {
                    after == Some(s)
                },
                None => after is None,
            }
        },
    }
}

impl Default for SurfaceSelection {
    fn default() -> (s: Self)
        ensures
            s.selection is None,
    {
        SurfaceSelection { selection: None }
    }
}

impl SurfaceSelection {
    pub fn new() -> (s: Self)
        ensures
            s.selection is None,
    {
        SurfaceSelection { selection: None }
    }

    /// Drop the selection.
    pub fn clear(&mut self)
        ensures
            final(self).selection is None,
    {
        self.selection = None;
    }

    /// Apply a gesture at `pos`; returns whether the surface needs a
    /// repaint (see `gesture_outcome`).
    pub fn apply_at(
        &mut self,
        pos: Pos,
        side: SurfaceCellSide,
        kind: SurfaceMouseEventKind,
        selection_type: SelectionType,
    ) -> (repaint: bool)
        ensures
            gesture_outcome(old(self).selection, final(self).selection, pos, side, kind, selection_type, repaint),
    {
        let side = match side {
            SurfaceCellSide::Left => Direction::Left,
            SurfaceCellSide::Right => Direction::Right,
        };
        match kind {
            SurfaceMouseEventKind::Down => {
                let had_selection = self.selection.is_some();
                self.selection = Some(Selection::new(selection_type, pos, side));
                had_selection || selection_type != SelectionType::Simple
            },
            SurfaceMouseEventKind::Move => {
                match &mut self.selection {
                    None => false,
                    Some(selection) => {
                        selection.update(pos, side);
                        true
                    },
                }
            },
            SurfaceMouseEventKind::Up => {
                let empty = match &self.selection {
                    Some(s) => s.is_empty(),
                    None => false,
                };
                if empty {
                    self.selection = None;
                }
                false
            },
        }
    }

    /// Apply a gesture at an absolute screen cell; a row past the `i32`
    /// range is ignored.
    pub fn apply_screen(
        &mut self,
        cell: SurfaceScreenCell,
        side: SurfaceCellSide,
        kind: SurfaceMouseEventKind,
        selection_type: SelectionType,
    ) -> (repaint: bool)
        ensures
            cell.row > i32::MAX ==> !repaint && final(self).selection == old(self).selection,
            cell.row <= i32::MAX ==> gesture_outcome(
                old(self).selection,
                final(self).selection,
                Pos { row: Line(cell.row as i32), col: Column(cell.col as usize) },
                side,
                kind,
                selection_type,
                repaint,
            ),
    {
        if cell.row > 0x7fff_ffff {
            return false;
        }
        self.apply_at(
            Pos::new(Line(cell.row as i32), Column(cell.col as usize)),
            side,
            kind,
            selection_type,
        )
    }
}

} // verus!
