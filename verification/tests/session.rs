use terminal::mouse::{
    KeyboardModes, Mode, SurfaceScreenCell, SurfaceCellSide, SurfaceMouseButton, SurfaceMouseEventKind, mouse_button_code,
    mouse_motion_code, mouse_report_mods,
};
use terminal::pos::{Column, Line, Pos};
use terminal::selection::LineBound::Included;
use terminal::selection::SelectionType;
use terminal::session::{
    PageSource, PointerCell, ShellActivity, SurfaceSelection, join_block_texts, materialized_pointer_row, page_request_stale,
    page_start,
};
use terminal::paste::paste_payload;
use terminal::write_queue::PtyState;

fn pos(row: i32, col: usize) -> Pos {
    Pos::new(Line(row), Column(col))
}

#[test]
fn plain_click_on_empty_selection_needs_no_repaint() {
    let mut selection = SurfaceSelection::default();
    assert!(!selection.apply_at(pos(3, 4), SurfaceCellSide::Left, SurfaceMouseEventKind::Down, SelectionType::Simple));
}

#[test]
fn click_replacing_a_highlight_needs_a_repaint() {
    let mut selection = SurfaceSelection::default();
    selection.apply_at(pos(3, 4), SurfaceCellSide::Left, SurfaceMouseEventKind::Down, SelectionType::Simple);
    selection.apply_at(pos(3, 9), SurfaceCellSide::Right, SurfaceMouseEventKind::Move, SelectionType::Simple);
    assert!(selection.apply_at(pos(5, 0), SurfaceCellSide::Left, SurfaceMouseEventKind::Down, SelectionType::Simple));
}

#[test]
fn semantic_click_needs_a_repaint_immediately() {
    let mut selection = SurfaceSelection::default();
    assert!(selection.apply_at(pos(3, 4), SurfaceCellSide::Left, SurfaceMouseEventKind::Down, SelectionType::Semantic));
}

#[test]
fn drag_without_an_active_selection_is_ignored() {
    let mut selection = SurfaceSelection::default();
    assert!(!selection.apply_at(pos(3, 4), SurfaceCellSide::Left, SurfaceMouseEventKind::Move, SelectionType::Simple));
}

#[test]
fn releasing_an_empty_click_drops_the_selection() {
    let mut selection = SurfaceSelection::default();
    selection.apply_at(pos(3, 4), SurfaceCellSide::Left, SurfaceMouseEventKind::Down, SelectionType::Simple);
    selection.apply_at(pos(3, 4), SurfaceCellSide::Left, SurfaceMouseEventKind::Up, SelectionType::Simple);
    assert!(!selection.apply_at(pos(3, 9), SurfaceCellSide::Right, SurfaceMouseEventKind::Move, SelectionType::Simple));
}

#[test]
fn clearing_removes_the_anchor() {
    let mut selection = SurfaceSelection::default();
    selection.apply_at(pos(3, 4), SurfaceCellSide::Left, SurfaceMouseEventKind::Down, SelectionType::Simple);
    selection.clear();
    assert!(!selection.apply_at(pos(7, 1), SurfaceCellSide::Left, SurfaceMouseEventKind::Down, SelectionType::Simple));
}

#[test]
fn mouse_reports_encode_buttons_motion_and_modifiers() {
    assert_eq!(mouse_button_code(SurfaceMouseButton::Middle), Some(1));
    let motion = Mode::from_bits(Mode::MOUSE_MOTION);
    let drag = Mode::from_bits(Mode::MOUSE_DRAG);
    assert_eq!(mouse_motion_code(motion, None), Some(35));
    assert_eq!(mouse_motion_code(motion, Some(SurfaceMouseButton::Right)), Some(34));
    assert_eq!(mouse_motion_code(drag, None), None);
    assert_eq!(mouse_motion_code(drag, Some(SurfaceMouseButton::Left)), Some(32));
    assert_eq!(mouse_motion_code(Mode::empty(), Some(SurfaceMouseButton::Left)), None);
    assert_eq!(mouse_report_mods(true, false, true), 20);
    assert_eq!(mouse_report_mods(false, true, false), 8);
    let mut m = Mode::default();
    assert!(m.contains(Mode::SHOW_CURSOR | Mode::LINE_WRAP));
    m.set(Mode::SHOW_CURSOR, false);
    assert!(!m.contains(Mode::SHOW_CURSOR));
}

#[test]
fn pointer_rows_keep_grid_columns() {
    let cells = vec![
        PointerCell { x: 0, text: "a".to_string() },
        PointerCell { x: 3, text: "éx".to_string() },
        PointerCell { x: 3, text: "z".to_string() },
        PointerCell { x: 4, text: String::new() },
    ];
    let row = materialized_pointer_row(&cells, true, vec![(0, 1, "u".to_string())], 7);
    assert_eq!(row.text, "a  é   ");
    assert!(row.wrapped);
    assert_eq!(row.hyperlinks, vec![(0, 1, "u".to_string())]);
    assert_eq!(page_start(130), 128);
}

#[test]
fn queued_input_is_written_in_order_in_bounded_passes() {
    let mut q = PtyState::new();
    assert!(!q.needs_write());
    q.push(b"hello".to_vec());
    q.push(Vec::new());
    q.push(b"world".to_vec());
    let mut out = Vec::new();
    let mut written = 0;
    // The writer takes at most three bytes a call.
    while q.prepare(written) {
        let chunk = q.chunk(written);
        let n = chunk.len().min(3);
        out.extend_from_slice(&chunk[..n]);
        q.advance(n);
        written += n;
    }
    assert_eq!(out, b"helloworld");
    assert!(!q.needs_write());
}

#[test]
fn a_full_batch_ends_the_pass_and_the_next_resumes() {
    let mut q = PtyState::new();
    q.push(vec![b'x'; 70_000]);
    let mut written = 0;
    while q.prepare(written) {
        let n = q.chunk(written).len();
        q.advance(n);
        written += n;
    }
    assert_eq!(written, 65_536);
    assert!(q.needs_write());
    assert!(q.prepare(0));
    assert_eq!(q.chunk(0).len(), 70_000 - 65_536);
}

#[test]
fn paste_payload_normalizes_and_guards() {
    assert_eq!(paste_payload("", false), None);
    assert_eq!(paste_payload("a\r\nb\nc", false).unwrap(), b"a\rb\rc".to_vec());
    assert_eq!(paste_payload("ls\x1b[201~rm", true).unwrap(), b"\x1b[200~lsrm\x1b[201~".to_vec());
}

#[test]
fn paste_removes_end_markers_in_one_pass() {
    // A marker split around another marker is not rescanned.
    assert_eq!(
        paste_payload("\x1b[20\x1b[201~1~", true).unwrap(),
        b"\x1b[200~\x1b[201~\x1b[201~".to_vec()
    );
}

#[test]
fn finished_chunks_give_way_even_after_a_full_batch() {
    let mut q = PtyState::new();
    q.push(Vec::new());
    assert!(q.needs_write());
    assert!(!q.prepare(65_536));
    assert!(!q.needs_write());
}

#[test]
fn screen_gestures_act_at_the_screen_row() {
    let mut selection = SurfaceSelection::new();
    let cell = SurfaceScreenCell { col: 2, row: 7 };
    assert!(selection.apply_screen(cell, SurfaceCellSide::Left, SurfaceMouseEventKind::Down, SelectionType::Lines));
    let s = selection.selection.as_ref().unwrap();
    assert!(s.intersects_range(Included(Line(7)), Included(Line(7))));
    assert!(!s.intersects_range(Included(Line(6)), Included(Line(6))));
}

#[test]
fn screen_gestures_past_the_row_range_are_ignored() {
    let mut selection = SurfaceSelection::new();
    let cell = SurfaceScreenCell { col: 0, row: u32::MAX };
    assert!(!selection.apply_screen(cell, SurfaceCellSide::Left, SurfaceMouseEventKind::Down, SelectionType::Lines));
    assert!(selection.selection.is_none());
}

#[test]
fn keyboard_protocol_flags_map_to_terminal_modes() {
    let m = Mode::from(KeyboardModes {
        bits: KeyboardModes::DISAMBIGUATE_ESC_CODES | KeyboardModes::REPORT_ASSOCIATED_TEXT,
    });
    assert!(m.contains(Mode::DISAMBIGUATE_ESC_CODES));
    assert!(m.contains(Mode::REPORT_ASSOCIATED_TEXT));
    assert!(!m.contains(Mode::REPORT_EVENT_TYPES));
    assert_eq!(Mode::from(KeyboardModes { bits: 0 }).bits, 0);
}

#[test]
fn escape_free_paste_closes_only_at_the_end() {
    let p = paste_payload("a\x1b[201~b\x1b[201~\x1b[201~c\r\n", true).unwrap();
    assert_eq!(p, b"\x1b[200~abc\r\x1b[201~".to_vec());
    let ends = p.windows(6).filter(|w| *w == b"\x1b[201~").count();
    assert_eq!(ends, 1);
    assert!(p.ends_with(b"\x1b[201~"));
}

/// A fake PTY writer: takes everything, or reports a zero-length write.
struct FakeWriter {
    data: Vec<u8>,
    write_zero: bool,
}

/// One write pass over the queue, stopping with `WriteZero` when the
/// writer accepts nothing.
fn write_pass(state: &mut PtyState, writer: &mut FakeWriter) -> std::io::Result<usize> {
    let mut written = 0;
    while state.prepare(written) {
        let chunk = state.chunk(written);
        if writer.write_zero {
            return Err(std::io::ErrorKind::WriteZero.into());
        }
        let n = chunk.len();
        writer.data.extend_from_slice(chunk);
        state.advance(n);
        written += n;
    }
    Ok(written)
}

#[test]
fn empty_input_does_not_stall_following_writes() {
    let mut writer = FakeWriter { data: Vec::new(), write_zero: false };
    let mut state = PtyState::new();
    state.push(Vec::new());
    state.push(b"after empty".to_vec());
    write_pass(&mut state, &mut writer).unwrap();
    assert_eq!(writer.data, b"after empty");
    assert!(!state.needs_write());

    writer.write_zero = true;
    state.push(b"stalled".to_vec());
    assert_eq!(write_pass(&mut state, &mut writer).unwrap_err().kind(), std::io::ErrorKind::WriteZero);
}

#[test]
fn stale_page_requests_are_refused() {
    assert!(!page_request_stale(PageSource::Screen { revision: 4 }, 4, 9));
    assert!(page_request_stale(PageSource::Screen { revision: 3 }, 4, 9));
    assert!(!page_request_stale(PageSource::Block { id: 1, generation: 2, theme: 9 }, 4, 9));
    assert!(page_request_stale(PageSource::Block { id: 1, generation: 2, theme: 8 }, 4, 9));
}

#[test]
fn block_texts_join_with_line_breaks() {
    assert_eq!(join_block_texts(&vec![]), "");
    assert_eq!(join_block_texts(&vec!["one".to_string()]), "one");
    assert_eq!(join_block_texts(&vec!["a b".to_string(), "".to_string(), "c".to_string()]), "a b\n\nc");
}

#[test]
fn in_flight_block_lifecycle() {
    let now = std::time::SystemTime::now();
    let mut a = ShellActivity::new();
    a.prompt_started();
    assert!(a.open_prompt);
    // start -> finish: in-flight visible while running, then cleared.
    a.command_started("sleep 5".to_string(), now);
    assert!(!a.open_prompt, "command start closes prompt");
    assert_eq!(a.in_flight.as_ref().unwrap().command.as_deref(), Some("sleep 5"));
    a.command_finished();
    assert!(a.in_flight.is_none(), "finished command clears live state");
    // start -> trust loss: cleared.
    a.command_started("nested".to_string(), now);
    assert_eq!(a.in_flight.as_ref().unwrap().command.as_deref(), Some("nested"));
    a.prompt_started();
    assert!(a.open_prompt);
    a.trust_changed(false);
    assert!(a.in_flight.is_none(), "trust loss drops the running block");
    assert!(!a.open_prompt, "trust loss closes prompt");
    // start -> exit: cleared as well.
    a.command_started("hang".to_string(), now);
    a.prompt_started();
    assert!(a.open_prompt);
    a.closed();
    assert!(a.in_flight.is_none(), "exit drops the running block");
    assert!(!a.open_prompt, "exit closes prompt");
}
