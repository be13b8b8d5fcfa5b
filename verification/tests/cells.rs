use terminal::cell::{Square, Wide};
use terminal::pos::{Column, CursorShape, CursorState, Line, Pos};

#[test]
fn square_setters_change_one_field() {
    let mut sq = Square::blank();
    sq.set_c('x');
    assert_eq!(sq.c(), 'x');
    assert!(matches!(sq.wide(), Wide::Narrow));
    sq.set_wide(Wide::Wide);
    assert!(matches!(sq.wide(), Wide::Wide));
    assert_eq!(sq.c(), 'x');
}

#[test]
fn only_a_hidden_cursor_is_invisible() {
    let at = Pos::new(Line(0), Column(0));
    assert!(CursorState { pos: at, content: CursorShape::Block }.is_visible());
    assert!(CursorState { pos: at, content: CursorShape::Beam }.is_visible());
    assert!(!CursorState { pos: at, content: CursorShape::Hidden }.is_visible());
}
