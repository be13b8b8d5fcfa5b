use terminal::cell::Wide;
use terminal::frozen::{
    BlockPoint, BlockRowRead, FrozenBlock, FrozenSelection, VisitedCell, block_selection_range,
    block_selection_span, frozen_selection_pieces, selection_type_for_click_count,
};
use terminal::selection::SelectionType;

/// A frozen block of `cols` columns whose rows hold `lines`; each line
/// says whether it soft-wraps into the next.
fn block(cols: u16, lines: &[(&str, bool)]) -> FrozenBlock {
    let rows = lines
        .iter()
        .map(|(text, wrapped)| {
            Some(BlockRowRead {
                cells: text
                    .chars()
                    .enumerate()
                    .map(|(x, c)| VisitedCell { x: x as u16, text: c.to_string(), wide: Wide::Narrow })
                    .collect(),
                wrapped: *wrapped,
            })
        })
        .collect();
    FrozenBlock { cols, rows }
}

#[test]
fn frozen_click_selection_expands_words_and_wrapped_lines() {
    // "foo bar\r\nabcdefghijk" printed 8 columns wide.
    let b = block(8, &[("foo bar", false), ("abcdefgh", true), ("ijk", false)]);
    assert_eq!(block_selection_range(&b, 0, 5, SelectionType::Semantic), Some(((0, 4), (0, 6))));
    assert_eq!(block_selection_range(&b, 2, 1, SelectionType::Semantic), Some(((1, 0), (2, 2))));
    assert_eq!(block_selection_range(&b, 2, 1, SelectionType::Lines), Some(((1, 0), (2, 7))));
}

#[test]
fn frozen_click_selection_matches_brackets_like_the_live_screen() {
    let b = block(20, &[("f(a, b) x", false)]);
    assert_eq!(block_selection_range(&b, 0, 1, SelectionType::Semantic), Some(((0, 1), (0, 6))));
}

#[test]
fn frozen_click_selection_simple_clamps_to_the_last_column() {
    let b = block(8, &[("foo bar", false)]);
    assert_eq!(block_selection_range(&b, 0, 30, SelectionType::Simple), Some(((0, 7), (0, 7))));
    assert_eq!(block_selection_range(&b, 1, 0, SelectionType::Simple), None);
    let empty = FrozenBlock { cols: 0, rows: vec![] };
    assert_eq!(block_selection_range(&empty, 0, 0, SelectionType::Lines), None);
}

#[test]
fn frozen_click_selection_fails_on_an_unreadable_row() {
    let mut b = block(8, &[("abcdefgh", true), ("ijk", false)]);
    b.rows[0] = None;
    assert_eq!(block_selection_range(&b, 1, 1, SelectionType::Lines), None);
}

#[test]
fn block_selection_spans_cover_intermediate_rows_and_clip_the_last_row() {
    let selection = Some((
        BlockPoint { item: 0, line: 1, col: 2 },
        BlockPoint { item: 1, line: 2, col: 4 },
    ));
    assert_eq!(block_selection_span(selection, 0, 0, 10), None);
    assert_eq!(block_selection_span(selection, 0, 1, 10), Some((2, 10)));
    assert_eq!(block_selection_span(selection, 1, 1, 10), Some((0, 10)));
    assert_eq!(block_selection_span(selection, 1, 2, 3), Some((0, 3)));
    assert_eq!(block_selection_span(selection, 1, 3, 10), None);
}

#[test]
fn repeated_clicks_choose_terminal_selection_modes() {
    assert_eq!(selection_type_for_click_count(1), SelectionType::Simple);
    assert_eq!(selection_type_for_click_count(2), SelectionType::Semantic);
    assert_eq!(selection_type_for_click_count(3), SelectionType::Lines);
    assert_eq!(selection_type_for_click_count(4), SelectionType::Lines);
}

#[test]
fn plain_click_in_frozen_history_selects_nothing() {
    let mut s = FrozenSelection::default();
    let a = BlockPoint { item: 0, line: 1, col: 2 };
    s.begin(a);
    assert_eq!(s.anchor(), Some(a));
    assert!(s.commit());
    assert_eq!(s.current(), None);
    assert!(!s.commit());
}

#[test]
fn frozen_drag_selects_from_anchor_to_head() {
    let mut s = FrozenSelection::default();
    let a = BlockPoint { item: 0, line: 1, col: 2 };
    let h = BlockPoint { item: 2, line: 0, col: 5 };
    assert!(!s.extend(h));
    s.begin(a);
    assert!(s.extend(BlockPoint { item: 1, line: 0, col: 0 }));
    assert!(s.extend(h));
    assert!(s.commit());
    assert_eq!(s.current(), Some((a, h)));
    assert!(s.clear());
    assert!(!s.clear());
    s.select(Some((h, a)));
    assert_eq!(s.anchor(), None);
    assert_eq!(s.current(), Some((h, a)));
}

#[test]
fn frozen_selection_pieces_follow_item_order() {
    let a = BlockPoint { item: 3, line: 4, col: 5 };
    let b = BlockPoint { item: 1, line: 2, col: 0 };
    let pieces = frozen_selection_pieces(&[true, true, false, true, true], a, b);
    let got: Vec<_> = pieces.iter().map(|p| (p.item, p.start, p.end)).collect();
    assert_eq!(got, vec![(1, Some((2, 0)), None), (3, None, Some((4, 5)))]);
}

/// Two finished engine blocks; the pieces name each by its item index.
fn check_selection_pieces_cover_block_ranges() {
    let has_block = [true, true];
    let pieces = frozen_selection_pieces(
        &has_block,
        BlockPoint { item: 0, line: 0, col: 2 },
        BlockPoint { item: 1, line: 3, col: 4 },
    );
    assert_eq!(pieces.len(), 2);
    assert_eq!(pieces[0].item, 0);
    assert_eq!(pieces[0].start, Some((0, 2)));
    assert_eq!(pieces[0].end, None, "selection continues past this item");
    assert_eq!(pieces[1].item, 1);
    assert_eq!(pieces[1].start, None, "selection starts before this item");
    assert_eq!(pieces[1].end, Some((3, 4)));
}

#[test]
fn block_tests_selection_pieces_cover_block_ranges() {
    check_selection_pieces_cover_block_ranges();
}

#[test]
fn engine_tests_selection_pieces_cover_block_ranges() {
    check_selection_pieces_cover_block_ranges();
}
