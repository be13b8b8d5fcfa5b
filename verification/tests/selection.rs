use terminal::cell::{Square, Wide};
use terminal::grid::{VisibleGrid, vpos};
use terminal::pos::{Column, Direction, Line, Pos};
use terminal::row::Row;
use terminal::session::selection_screen_range;
use terminal::selection::LineBound::{Excluded, Included, Unbounded};
use terminal::selection::{
    RowSelection, Selection, SelectionRange, SelectionType, row_selection_for,
};

const ESCAPE: &str = ",│`|:\"' ()[]{}<>\t\0";

/// Rows of `cols` cells holding `lines` as a terminal would after printing
/// them; each line says whether it soft-wraps into the next.
fn grid_rows(cols: usize, rows: usize, lines: &[(&str, bool)]) -> (Vec<Row<Square>>, Vec<bool>) {
    let mut out = Vec::new();
    let mut wrapped = Vec::new();
    for y in 0..rows {
        let mut row = Row::new(cols);
        let mut wraps = false;
        if let Some((text, w)) = lines.get(y) {
            for (x, c) in text.chars().enumerate() {
                row.inner[x] = Square { ch: c, width: Wide::Narrow };
            }
            wraps = *w;
        }
        out.push(row);
        wrapped.push(wraps);
    }
    (out, wrapped)
}

#[test]
fn semantic_word_boundaries() {
    let (rows, wrapped) = grid_rows(20, 1, &[("foo bar baz", false)]);
    let g = VisibleGrid::new(&rows, 20, &wrapped);
    let left = g.semantic_search_left(vpos(0, 5), ESCAPE);
    let right = g.semantic_search_right(vpos(0, 5), ESCAPE);
    assert_eq!(left.col, Column(4), "word start at 'b' of bar");
    assert_eq!(right.col, Column(6), "word end at 'r' of bar");
}

#[test]
fn bracket_match() {
    let (rows, wrapped) = grid_rows(20, 1, &[("a(bc)d", false)]);
    let g = VisibleGrid::new(&rows, 20, &wrapped);
    assert_eq!(g.bracket_search(vpos(0, 1)), Some(vpos(0, 4)));
    assert_eq!(g.bracket_search(vpos(0, 4)), Some(vpos(0, 1)));
    assert_eq!(g.bracket_search(vpos(0, 0)), None);
}

#[test]
fn line_search_follows_softwrap() {
    let (rows, wrapped) = grid_rows(8, 3, &[("aaaaaaaa", true), ("aabbb", false)]);
    let g = VisibleGrid::new(&rows, 8, &wrapped);
    assert_eq!(g.row_search_left(vpos(1, 2)), vpos(0, 0));
    assert_eq!(g.row_search_right(vpos(0, 3)), vpos(1, 7));
}

#[test]
fn line_search_stops_at_hard_newline() {
    let (rows, wrapped) = grid_rows(8, 3, &[("ab", false), ("cd", false)]);
    let g = VisibleGrid::new(&rows, 8, &wrapped);
    assert_eq!(g.row_search_left(vpos(0, 1)), vpos(0, 0));
    assert_eq!(g.row_search_right(vpos(0, 1)).row, Line(0));
}

#[test]
fn line_search_clips_offscreen_megaline() {
    let (rows, wrapped) = grid_rows(4, 3, &[("aaaa", true), ("aaaa", true), ("aaaa", false)]);
    let g = VisibleGrid::new(&rows, 4, &wrapped);
    assert_eq!(g.row_search_left(vpos(1, 2)), vpos(0, 0));
    assert_eq!(g.row_search_right(vpos(1, 2)), vpos(2, 3));
}

fn range(sr: i32, sc: usize, er: i32, ec: usize, block: bool) -> SelectionRange {
    SelectionRange::new(Pos::new(Line(sr), Column(sc)), Pos::new(Line(er), Column(ec)), block)
}

#[test]
fn none_outside_the_row_band_or_zero_cols() {
    let sel = range(1, 2, 3, 4, false);
    assert_eq!(row_selection_for(Some(sel), 0, 10), None);
    assert_eq!(row_selection_for(Some(sel), 4, 10), None);
    assert_eq!(row_selection_for(Some(sel), 2, 0), None);
    assert_eq!(row_selection_for(None, 2, 10), None);
}

#[test]
fn linear_selection_expands_middle_rows_and_clips_ends() {
    let sel = range(1, 2, 3, 4, false);
    assert_eq!(row_selection_for(Some(sel), 1, 10), Some(RowSelection { lo: 2, hi: 9 }));
    assert_eq!(row_selection_for(Some(sel), 2, 10), Some(RowSelection { lo: 0, hi: 9 }));
    assert_eq!(row_selection_for(Some(sel), 3, 10), Some(RowSelection { lo: 0, hi: 4 }));
}

#[test]
fn block_selection_uses_the_same_span_on_every_row() {
    let sel = range(1, 2, 3, 4, true);
    let expected = Some(RowSelection { lo: 2, hi: 4 });
    assert_eq!(row_selection_for(Some(sel), 1, 10), expected);
    assert_eq!(row_selection_for(Some(sel), 2, 10), expected);
    assert_eq!(row_selection_for(Some(sel), 3, 10), expected);
}

#[test]
fn to_range_engine_maps_screen_to_visible() {
    let (rows, wrapped) = grid_rows(10, 5, &[]);
    let g = VisibleGrid::new(&rows, 10, &wrapped);
    let mut sel = Selection::new(SelectionType::Simple, Pos::new(Line(7), Column(1)), Direction::Left);
    sel.update(Pos::new(Line(7), Column(4)), Direction::Right);
    let r = sel.to_range_engine(&g, 7, "").unwrap();
    assert_eq!(r.start.row, Line(0), "screen row - viewport_top");
    assert_eq!(r.end.row, Line(0));
}

#[test]
fn simple_is_empty() {
    let mut selection = Selection::new(SelectionType::Simple, Pos::new(Line(1), Column(0)), Direction::Right);
    assert!(selection.is_empty());
    selection.update(Pos::new(Line(1), Column(1)), Direction::Left);
    assert!(selection.is_empty());
    selection.update(Pos::new(Line(0), Column(0)), Direction::Right);
    assert!(!selection.is_empty());
}

#[test]
fn block_is_empty() {
    let mut selection = Selection::new(SelectionType::Block, Pos::new(Line(1), Column(0)), Direction::Right);
    assert!(selection.is_empty());
    selection.update(Pos::new(Line(1), Column(1)), Direction::Left);
    assert!(selection.is_empty());
    selection.update(Pos::new(Line(1), Column(1)), Direction::Right);
    assert!(!selection.is_empty());
    selection.update(Pos::new(Line(0), Column(0)), Direction::Right);
    assert!(selection.is_empty());
    selection.update(Pos::new(Line(0), Column(1)), Direction::Left);
    assert!(selection.is_empty());
    selection.update(Pos::new(Line(0), Column(1)), Direction::Right);
    assert!(!selection.is_empty());
}

#[test]
fn range_intersection() {
    let mut selection = Selection::new(SelectionType::Lines, Pos::new(Line(3), Column(1)), Direction::Left);
    selection.update(Pos::new(Line(6), Column(1)), Direction::Right);
    assert!(selection.intersects_range(Unbounded, Unbounded));
    assert!(selection.intersects_range(Included(Line(2)), Unbounded));
    assert!(selection.intersects_range(Included(Line(3)), Included(Line(3))));
    assert!(selection.intersects_range(Included(Line(2)), Included(Line(4))));
    assert!(selection.intersects_range(Included(Line(2)), Included(Line(7))));
    assert!(selection.intersects_range(Included(Line(4)), Included(Line(5))));
    assert!(selection.intersects_range(Included(Line(5)), Excluded(Line(8))));
    assert!(!selection.intersects_range(Unbounded, Included(Line(2))));
    assert!(!selection.intersects_range(Included(Line(7)), Included(Line(8))));
}

#[test]
fn word_selection_expands_to_the_word_and_lines_to_the_logical_line() {
    let (rows, wrapped) = grid_rows(8, 3, &[("foo bar", false), ("abcdefgh", true), ("ijk", false)]);
    let g = VisibleGrid::new(&rows, 8, &wrapped);
    let word = Selection::expand_point(&g, vpos(0, 5), SelectionType::Semantic, ESCAPE).unwrap();
    assert_eq!((word.start, word.end), (vpos(0, 4), vpos(0, 6)));
    let line = Selection::expand_point(&g, vpos(2, 1), SelectionType::Lines, ESCAPE).unwrap();
    assert_eq!((line.start, line.end), (vpos(1, 0), vpos(2, 7)));
    assert!(Selection::expand_point(&g, vpos(0, 5), SelectionType::Simple, ESCAPE).is_none());
}

#[test]
fn screen_word_selection_searches_the_visible_row_before_rebasing() {
    // "pipelines.universal\r\npi" on a 24x2 screen.
    let (rows, wrapped) = grid_rows(24, 2, &[("pipelines.universal", false), ("pi", false)]);
    let buf = VisibleGrid::new(&rows, 24, &wrapped);
    let selection = Selection::new(SelectionType::Semantic, Pos::new(Line(1), Column(1)), Direction::Left);
    let range = selection_screen_range(&selection, &buf, 1).unwrap();
    assert_eq!(range.start, Pos::new(Line(1), Column(0)));
    assert_eq!(range.end, Pos::new(Line(1), Column(8)));
}

#[test]
fn bracket_match_is_an_involution_on_nested_pairs() {
    let (rows, wrapped) = grid_rows(12, 2, &[("x{a[b(c", true), ("d)e]f}<g>", false)]);
    let g = VisibleGrid::new(&rows, 12, &wrapped);
    let pairs = [
        (vpos(0, 1), vpos(1, 5)),
        (vpos(0, 3), vpos(1, 3)),
        (vpos(0, 5), vpos(1, 1)),
        (vpos(1, 6), vpos(1, 8)),
    ];
    for (p, q) in pairs {
        assert_eq!(g.bracket_search(p), Some(q));
        assert_eq!(g.bracket_search(q), Some(p));
    }
}
