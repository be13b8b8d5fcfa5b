use terminal::cell::{Square, Wide};
use terminal::grid::{VisibleGrid, vpos};
use terminal::pos::{Column, Line, Pos};
use terminal::row::Row;
use terminal::vi_motion::{ViMotion, vi_motion};

const ESCAPE: &str = ",│`|:\"' ()[]{}<>\t\0";

fn grid_rows(cols: usize, lines: &[(&str, bool)]) -> (Vec<Row<Square>>, Vec<bool>) {
    let mut out = Vec::new();
    let mut wrapped = Vec::new();
    for (text, w) in lines {
        let mut row = Row::new(cols);
        for (x, c) in text.chars().enumerate() {
            row.inner[x] = Square { ch: c, width: Wide::Narrow };
        }
        out.push(row);
        wrapped.push(*w);
    }
    (out, wrapped)
}

#[test]
fn vi_motions_move_by_cells_lines_and_screen() {
    let (rows, wrapped) = grid_rows(8, &[("foo bar", false), ("  x(y)z", false), ("", false)]);
    let g = VisibleGrid::new(&rows, 8, &wrapped);
    assert_eq!(vi_motion(&g, ESCAPE, vpos(0, 0), ViMotion::Right), vpos(0, 1));
    assert_eq!(vi_motion(&g, ESCAPE, vpos(0, 0), ViMotion::Left), vpos(0, 0));
    assert_eq!(vi_motion(&g, ESCAPE, vpos(0, 0), ViMotion::Up), vpos(0, 0));
    assert_eq!(vi_motion(&g, ESCAPE, vpos(0, 0), ViMotion::Down), vpos(1, 0));
    assert_eq!(vi_motion(&g, ESCAPE, vpos(2, 0), ViMotion::Down), vpos(2, 0));
    assert_eq!(vi_motion(&g, ESCAPE, vpos(0, 0), ViMotion::Last), vpos(0, 6));
    assert_eq!(vi_motion(&g, ESCAPE, vpos(0, 5), ViMotion::First), vpos(0, 0));
    assert_eq!(vi_motion(&g, ESCAPE, vpos(1, 5), ViMotion::FirstOccupied), vpos(1, 2));
    assert_eq!(vi_motion(&g, ESCAPE, vpos(1, 5), ViMotion::High), vpos(0, 0));
    assert_eq!(vi_motion(&g, ESCAPE, vpos(0, 5), ViMotion::Middle), vpos(0, 0));
    assert_eq!(vi_motion(&g, ESCAPE, vpos(0, 5), ViMotion::Low), vpos(2, 0));
    assert_eq!(vi_motion(&g, ESCAPE, vpos(1, 3), ViMotion::Bracket), vpos(1, 5));
    assert_eq!(vi_motion(&g, ESCAPE, vpos(1, 6), ViMotion::Bracket), vpos(1, 6));
}

#[test]
fn vi_motions_move_by_words() {
    let (rows, wrapped) = grid_rows(8, &[("foo bar", false), ("  x(y)z", false), ("", false)]);
    let g = VisibleGrid::new(&rows, 8, &wrapped);
    assert_eq!(vi_motion(&g, ESCAPE, vpos(0, 0), ViMotion::SemanticRight), vpos(0, 4));
    assert_eq!(vi_motion(&g, ESCAPE, vpos(0, 0), ViMotion::WordRight), vpos(0, 4));
    assert_eq!(vi_motion(&g, ESCAPE, vpos(0, 0), ViMotion::WordRightEnd), vpos(0, 2));
    assert_eq!(vi_motion(&g, ESCAPE, vpos(0, 5), ViMotion::SemanticLeft), vpos(0, 4));
    assert_eq!(vi_motion(&g, ESCAPE, vpos(0, 0), ViMotion::WordLeft), vpos(0, 0));
}

#[test]
fn vi_motions_follow_soft_wraps() {
    let (rows, wrapped) = grid_rows(4, &[("abcd", true), ("ef", false), ("", false)]);
    let g = VisibleGrid::new(&rows, 4, &wrapped);
    assert_eq!(vi_motion(&g, ESCAPE, vpos(0, 3), ViMotion::Right), vpos(1, 0));
    assert_eq!(vi_motion(&g, ESCAPE, vpos(1, 0), ViMotion::Left), vpos(0, 3));
    assert_eq!(vi_motion(&g, ESCAPE, vpos(1, 0), ViMotion::First), vpos(0, 0));
    assert_eq!(vi_motion(&g, ESCAPE, vpos(0, 3), ViMotion::Last), vpos(1, 1));
}

#[test]
fn vi_motions_stay_in_a_viewport_whose_last_row_ends() {
    let (rows, wrapped) = grid_rows(4, &[("ab c", true), ("d ef", false), ("gh i", false)]);
    let g = VisibleGrid::new(&rows, 4, &wrapped);
    let motions = [
        ViMotion::Up, ViMotion::Down, ViMotion::Left, ViMotion::Right, ViMotion::First,
        ViMotion::Last, ViMotion::FirstOccupied, ViMotion::High, ViMotion::Middle, ViMotion::Low,
        ViMotion::SemanticLeft, ViMotion::SemanticRight, ViMotion::SemanticLeftEnd,
        ViMotion::SemanticRightEnd, ViMotion::WordLeft, ViMotion::WordRight, ViMotion::WordLeftEnd,
        ViMotion::WordRightEnd, ViMotion::Bracket,
    ];
    for row in 0..3 {
        for col in 0..4 {
            for m in motions {
                let p = vi_motion(&g, ESCAPE, vpos(row, col), m);
                assert!((0..3).contains(&p.row.0), "{m:?} from ({row},{col}) left the viewport: {p:?}");
            }
        }
    }
}

#[test]
fn vi_middle_of_a_one_row_viewport_stays_on_it() {
    let (rows, wrapped) = grid_rows(4, &[("ab", false)]);
    let g = VisibleGrid::new(&rows, 4, &wrapped);
    assert_eq!(vi_motion(&g, ESCAPE, vpos(0, 1), ViMotion::Middle), vpos(0, 0));
}

#[test]
fn vi_up_and_down_keep_a_column_past_the_width() {
    let (rows, wrapped) = grid_rows(4, &[("ab", false), ("cd", false), ("ef", false)]);
    let g = VisibleGrid::new(&rows, 4, &wrapped);
    assert_eq!(vi_motion(&g, ESCAPE, vpos(1, 9), ViMotion::Up), vpos(0, 9));
    assert_eq!(vi_motion(&g, ESCAPE, vpos(1, 9), ViMotion::Down), vpos(2, 9));
    assert_eq!(vi_motion(&g, ESCAPE, vpos(0, 9), ViMotion::Up), vpos(0, 9));
    assert_eq!(vi_motion(&g, ESCAPE, vpos(2, 9), ViMotion::Down), vpos(2, 9));
    // Up undoes Down away from the bottom row.
    let down = vi_motion(&g, ESCAPE, vpos(0, 1), ViMotion::Down);
    assert_eq!(vi_motion(&g, ESCAPE, down, ViMotion::Up), vpos(0, 1));
}

#[test]
fn vi_left_from_a_line_start_follows_only_a_soft_wrap() {
    let (rows, wrapped) = grid_rows(4, &[("abcd", true), ("ef", false), ("gh", false)]);
    let g = VisibleGrid::new(&rows, 4, &wrapped);
    assert_eq!(vi_motion(&g, ESCAPE, vpos(1, 0), ViMotion::Left), vpos(0, 3));
    assert_eq!(vi_motion(&g, ESCAPE, vpos(2, 0), ViMotion::Left), vpos(2, 0));
}

#[test]
fn vi_left_on_a_leading_spacer_of_the_last_row() {
    let (mut rows, wrapped) = grid_rows(3, &[("ab", false)]);
    rows[0].inner[2] = Square { ch: ' ', width: Wide::LeadingSpacer };
    let g = VisibleGrid::new(&rows, 3, &wrapped);
    assert_eq!(vi_motion(&g, ESCAPE, vpos(0, 2), ViMotion::Left), vpos(0, 1));
    assert_eq!(vi_motion(&g, ESCAPE, vpos(0, 2), ViMotion::Up), vpos(0, 2));
}

#[test]
fn vi_right_and_first_from_the_edges() {
    let (mut rows, wrapped) = grid_rows(3, &[("ab", false)]);
    rows[0].inner[2] = Square { ch: ' ', width: Wide::LeadingSpacer };
    let g = VisibleGrid::new(&rows, 3, &wrapped);
    // A leading spacer on the last row steps past the viewport's bottom.
    assert_eq!(vi_motion(&g, ESCAPE, vpos(0, 2), ViMotion::Right), vpos(1, 2));
    // A column past the width steps to the last column.
    assert_eq!(vi_motion(&g, ESCAPE, vpos(0, 9), ViMotion::Right), vpos(0, 2));
    assert_eq!(vi_motion(&g, ESCAPE, vpos(0, 9), ViMotion::First), vpos(0, 0));
}

#[test]
fn vi_motions_from_off_grid_positions() {
    let (rows, wrapped) = grid_rows(8, &[("foo bar", false), ("  x(y)z", false), ("", false)]);
    let g = VisibleGrid::new(&rows, 8, &wrapped);
    assert_eq!(vi_motion(&g, ESCAPE, vpos(5, 2), ViMotion::WordLeft), vpos(1, 2));
    assert_eq!(vi_motion(&g, ESCAPE, vpos(6, 3), ViMotion::Last), vpos(6, 7));
    assert_eq!(vi_motion(&g, ESCAPE, vpos(6, 3), ViMotion::FirstOccupied), vpos(6, 7));
    assert_eq!(vi_motion(&g, ESCAPE, vpos(6, 3), ViMotion::Bracket), vpos(6, 3));
    assert_eq!(vi_motion(&g, ESCAPE, Pos::new(Line(-1), Column(5)), ViMotion::WordRight), vpos(0, 0));
}
