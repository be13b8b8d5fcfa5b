use terminal::cell::{Square, Wide};
use terminal::corpus::{DeepCorpus, VisibleCorpus, compile_with};
use terminal::pos::{Column, Direction, Line, Pos};
use terminal::row::Row;

#[test]
fn deep_corpus_maps_offset_to_grid_row() {
    let unwrapped = "foo\nbar\nbaz\nqux\n";
    let wrapped = "foo\nbarbaz\nqux\n".to_string();
    let corpus = DeepCorpus::build(wrapped, unwrapped);
    assert_eq!(corpus.grid_row_of(0), 0, "foo");
    assert_eq!(corpus.grid_row_of(4), 1, "wrap start");
    assert_eq!(corpus.grid_row_of(7), 2, "wrap continuation");
    assert_eq!(corpus.grid_row_of(11), 3, "qux");
}

fn rows(cols: usize, lines: &[&str]) -> Vec<Row<Square>> {
    lines
        .iter()
        .map(|text| {
            let mut row = Row::new(cols);
            for (x, c) in text.chars().enumerate() {
                row.inner[x] = Square { ch: c, width: Wide::Narrow };
            }
            row
        })
        .collect()
}

fn pos(r: i32, c: usize) -> Pos {
    Pos::new(Line(r), Column(c))
}

#[test]
fn visible_search_joins_wrapped_rows_and_maps_back_to_cells() {
    let grid = rows(6, &["foo ba", "r baz", "bar"]);
    let corpus = VisibleCorpus::build(&grid, 6, &[true, false, false]);
    let re = compile_with("bar", true).expect("pattern compiles");
    let all = corpus.find_all(&re);
    assert_eq!(all, vec![(pos(0, 4), pos(1, 0)), (pos(2, 0), pos(2, 2))]);
    assert_eq!(corpus.find(&re, pos(1, 3), Direction::Right), Some((pos(2, 0), pos(2, 2))));
    assert_eq!(corpus.find(&re, pos(1, 3), Direction::Left), Some((pos(0, 4), pos(1, 0))));
    assert_eq!(corpus.find(&re, pos(2, 5), Direction::Right), Some((pos(0, 4), pos(1, 0))));
}

#[test]
fn visible_search_is_literal_and_smart_case() {
    let grid = rows(8, &["a.b axb", "A.B"]);
    let corpus = VisibleCorpus::build(&grid, 8, &[false, false]);
    let literal = compile_with("a.b", true).unwrap();
    assert_eq!(corpus.find_all(&literal), vec![(pos(0, 0), pos(0, 2)), (pos(1, 0), pos(1, 2))]);
    let regex = compile_with("a.b", false).unwrap();
    assert_eq!(corpus.find_all(&regex).len(), 3);
    let upper = compile_with("A.B", true).unwrap();
    assert_eq!(corpus.find_all(&upper), vec![(pos(1, 0), pos(1, 2))]);
    assert!(compile_with("(", false).is_none());
}

#[test]
fn deep_search_counts_and_finds_rows() {
    let corpus = DeepCorpus::build("x hit\nabhit\nno\nhit\n".to_string(), "x hit\nab\nhit\nno\nhit\n");
    let re = compile_with("hit", true).unwrap();
    assert_eq!(corpus.count(&re), 3);
    assert_eq!(corpus.find_row(&re, 1, Direction::Right), Some(2));
    assert_eq!(corpus.find_row(&re, 3, Direction::Left), Some(2));
    assert_eq!(corpus.find_row(&re, 5, Direction::Right), Some(0));
    let none = compile_with("zzz", true).unwrap();
    assert_eq!(corpus.find_row(&none, 0, Direction::Right), None);
}
