use terminal::conpty::{
    is_conpty_resize_echo_input, is_conpty_resize_repaint, max_cup_row_col,
    rewrite_conpty_resize_echo_cup_rows, su_realign_count,
};
use terminal::conpty_resize::ConptyResize;
use terminal::pty::scrollback_bytes;

#[test]
fn conpty_resize_echo_rewrites_cup_to_engine_cursor_row() {
    let rewritten = rewrite_conpty_resize_echo_cup_rows(b"\x1b[10;18Hx\x1b[10;19H", 42)
        .expect("CUP row should be rewritten");
    assert_eq!(rewritten, b"\x1b[42;18Hx\x1b[42;19H");
}

#[test]
fn su_realign_count_computes_push_to_align_prompt() {
    let repaint = b"\x1b[2;18Hdir\x1b[2;21H";
    assert_eq!(su_realign_count(repaint, 17, 80, 24, 80, 24), Some((16, 1)));
}

#[test]
fn su_realign_count_uses_last_cup_for_multirow_prompt() {
    let repaint = b"\x1b[10;22Hxxx\x1b[11;6H";
    assert_eq!(su_realign_count(repaint, 22, 90, 40, 90, 40), Some((12, 10)));
}

#[test]
fn su_realign_count_none_when_already_aligned() {
    let repaint = b"\x1b[2;18Hdir\x1b[2;21H";
    assert_eq!(su_realign_count(repaint, 1, 80, 24, 80, 24), None);
}

#[test]
fn su_realign_count_none_on_resize_mismatch() {
    let repaint = b"\x1b[2;18Hdir\x1b[2;21H";
    assert_eq!(su_realign_count(repaint, 17, 80, 24, 100, 24), None);
    let wide = b"\x1b[2;90Hx\x1b[2;90H";
    assert_eq!(su_realign_count(wide, 17, 80, 24, 80, 24), None);
}

#[test]
fn su_realign_count_none_without_cup() {
    assert_eq!(su_realign_count(b"\x1b[?25l", 17, 80, 24, 80, 24), None);
}

#[test]
fn max_cup_row_col_reports_maxima() {
    assert_eq!(max_cup_row_col(b"\x1b[2;18Hx\x1b[11;6H"), (11, 18));
    assert_eq!(max_cup_row_col(b"no cup here"), (0, 0));
}

#[test]
fn conpty_resize_echo_leaves_wrapped_redraw_when_cursor_already_aligned() {
    let wrapped = b"\x1b[10;22Hxxxxxxxxxxxxxxxxxxxxx\x1b[11;6H";
    assert_eq!(rewrite_conpty_resize_echo_cup_rows(wrapped, 11), None);
}

#[test]
fn conpty_resize_echo_shifts_wrapped_redraw_by_delta_preserving_rows() {
    let rewritten = rewrite_conpty_resize_echo_cup_rows(b"\x1b[9;22Hxxx\x1b[10;6H", 22)
        .expect("divergent redraw should shift");
    assert_eq!(rewritten, b"\x1b[21;22Hxxx\x1b[22;6H");
}

fn check_scrollback_bytes_from_config() {
    assert_eq!(scrollback_bytes(10_000, 80), 10_000 * 80 * 16);
    assert!(scrollback_bytes(100_000, 80) > scrollback_bytes(10_000, 80));
    assert!(scrollback_bytes(10_000, 200) > scrollback_bytes(10_000, 80));
    assert_eq!(scrollback_bytes(0, 80), 0);
    assert_eq!(scrollback_bytes(usize::MAX, 80), usize::MAX);
}

#[test]
fn pty_pipe_scrollback_bytes_from_config() {
    check_scrollback_bytes_from_config();
}

#[test]
fn scrollback_tests_scrollback_bytes_from_config() {
    check_scrollback_bytes_from_config();
}

fn armed(prompt_row_1based: u16) -> ConptyResize {
    let mut resize = ConptyResize::new();
    resize.on_resize(true, 80, 24, Some(prompt_row_1based - 1), 0);
    resize
}

#[test]
fn echo_before_repaint_keeps_anchor_and_repaint_scrolls_once() {
    let mut resize = armed(18);
    // Keystroke echo without an erase: nothing to realign yet.
    assert_eq!(resize.realign_anchor(b"\x1b[18;2Hx", false), None);
    let echo = resize.on_read(b"\x1b[18;2Hx", false, None, 1);
    assert!(echo.synthetic_prefix.is_none());
    assert!(echo.repaint_window);

    // The repaint erases: the anchor latched at the resize is offered.
    let repaint = b"\x1b[2;1H\x1b[J>";
    let anchor = resize.realign_anchor(repaint, false).expect("anchor held");
    assert_eq!((anchor.row, anchor.cols, anchor.rows), (17, 80, 24));
    let first = resize.on_read(repaint, false, Some((16, 1)), 2);
    assert_eq!(first.synthetic_prefix.as_deref(), Some(b"\x1b[16S".as_slice()));
    assert_eq!(first.expected_cursor, Some(1));

    // The anchor is spent: a second repaint does not scroll again.
    assert_eq!(resize.realign_anchor(repaint, false), None);
    assert!(resize.on_read(repaint, false, Some((16, 1)), 3).synthetic_prefix.is_none());
}

#[test]
fn repaint_below_the_prompt_scrolls_down() {
    let mut resize = armed(2);
    let read = resize.on_read(b"\x1b[5;1H\x1b[J>", false, Some((-3, 4)), 1);
    assert_eq!(read.synthetic_prefix.as_deref(), Some(b"\x1b[3T".as_slice()));
}

#[test]
fn alternate_screen_ends_the_window() {
    let mut resize = armed(18);
    assert_eq!(resize.realign_anchor(b"\x1b[2;1H\x1b[J>", true), None);
    assert!(resize.on_read(b"\x1b[2;1H\x1b[J>", true, None, 1).synthetic_prefix.is_none());
    assert!(!resize.on_read(b"x", false, None, 2).repaint_window);
}

#[test]
fn erase_in_an_earlier_read_arms_the_scroll_for_the_cup_read() {
    let mut resize = armed(18);
    let erase = b"\x1b[?25l\x1b[J";
    assert!(resize.realign_anchor(erase, false).is_some());
    // The erase alone carries no cursor move to realign to.
    assert!(resize.on_read(erase, false, None, 1).synthetic_prefix.is_none());
    // The erase seen earlier still arms the scroll for the read with the CUP.
    let cup = b"\x1b[2;1H>";
    let anchor = resize.realign_anchor(cup, false).expect("anchor held");
    assert_eq!(anchor.row, 17);
    assert_eq!(
        resize.on_read(cup, false, Some((16, 1)), 2).synthetic_prefix.as_deref(),
        Some(b"\x1b[16S".as_slice())
    );
}

#[test]
fn multi_row_redraw_without_erase_passes_through_untouched() {
    let mut resize = armed(18);
    // The shape of a PSReadLine ListView redraw: several rows, each
    // addressed absolutely and cleared with EL, cursor returned to the
    // input row. No ED anywhere, so it must not be taken for a repaint.
    let list =
        b"\x1b[18;1H\x1b[K> git\x1b[19;1H\x1b[K  git status\x1b[20;1H\x1b[K  git log\x1b[18;6H";
    assert_eq!(resize.realign_anchor(list, false), None);
    let read = resize.on_read(list, false, None, 1);
    assert!(read.synthetic_prefix.is_none());
    assert!(read.expected_cursor.is_none());
}

#[test]
fn resize_window_closes_after_reads_and_time() {
    let mut resize = armed(18);
    // Eight reads inside the first 150 ms keep the window open.
    for t in 0..8u64 {
        assert!(resize.on_read(b"x", false, None, t).repaint_window);
    }
    // Once both bounds have passed, the next read closes it.
    assert!(resize.on_read(b"x", false, None, 200).repaint_window);
    assert!(!resize.on_read(b"x", false, None, 201).repaint_window);
}

#[test]
fn resize_without_conpty_leaves_the_window_closed() {
    let mut resize = ConptyResize::new();
    resize.on_resize(false, 80, 24, Some(3), 0);
    assert!(!resize.on_read(b"\x1b[J", false, None, 1).repaint_window);
}

#[test]
fn resize_echo_input_is_short_printable_text() {
    assert!(is_conpty_resize_echo_input(b"ls -la"));
    assert!(!is_conpty_resize_echo_input(b""));
    assert!(!is_conpty_resize_echo_input(b"ls\r"));
    assert!(!is_conpty_resize_echo_input(b"\x1b[A"));
    assert!(!is_conpty_resize_echo_input(b"\x7f"));
    assert!(is_conpty_resize_echo_input(&[b'a'; 32]));
    assert!(!is_conpty_resize_echo_input(&[b'a'; 33]));
}

#[test]
fn resize_repaint_erases_and_moves_off_the_target_row() {
    assert!(is_conpty_resize_repaint(b"\x1b[2J\x1b[5;1Hprompt", 3));
    assert!(!is_conpty_resize_repaint(b"\x1b[2J\x1b[3;1Hprompt", 3));
    // No erase-display, a line break, or no target row: not a repaint.
    assert!(!is_conpty_resize_repaint(b"\x1b[5;1Hprompt", 3));
    assert!(!is_conpty_resize_repaint(b"\x1b[2J\x1b[5;1H\r\n", 3));
    assert!(!is_conpty_resize_repaint(b"\x1b[2J\x1b[5;1H", 0));
    // Only the first cursor move counts.
    assert!(!is_conpty_resize_repaint(b"\x1b[2J\x1b[3;1H\x1b[7;1H", 3));
}
