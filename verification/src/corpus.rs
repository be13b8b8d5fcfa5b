//! Regex search over terminal text. The visible tier flattens the visible
//! grid to text plus an exact char-to-cell index (soft-wrapped rows joined,
//! wide-character spacers skipped, hard line ends carried as `\n`) and maps
//! matches back to cells. The deep tier maps byte offsets of the whole
//! buffer's unwrapped text to grid rows.

use vstd::prelude::*;
use vstd::string::StrSliceExecFns;
use vstd::utf8::encode_utf8;

use crate::cell::{Square, Wide, blank_square, is_spacer_wide};
use crate::pos::{Column, Direction, Line, Pos};
use crate::row::Row;
use crate::selection::{pos_le, pos_lt};
use crate::text::string_from_chars;

verus! {

#[verifier::external_type_specification]
#[verifier::external_body]
pub struct ExRegex(regex::Regex);

/// Whether `char::is_uppercase` holds of `c`.
pub uninterp spec fn char_is_uppercase(c: char) -> bool;

/// `char::is_uppercase` (the Unicode `Uppercase` property); the contract
/// names the result.
#[verifier::external_body]
fn is_uppercase(c: char) -> (r: bool)
    ensures
        r == char_is_uppercase(c),
{
    c.is_uppercase()
}

/// The characters that `regex::escape` escapes (regex-syntax's
/// `is_meta_character`).
pub open spec fn is_regex_meta(c: char) -> bool {
    c == '\\' || c == '.' || c == '+' || c == '*' || c == '?' || c == '(' || c == ')' || c == '|'
        || c == '[' || c == ']' || c == '{' || c == '}' || c == '^' || c == '$' || c == '#' || c
        == '&' || c == '-' || c == '~'
}

/// `s` with a backslash before each regex metacharacter.
pub open spec fn regex_escaped(s: Seq<char>) -> Seq<char>
    decreases s.len(),
{
    if s.len() == 0 {
        Seq::empty()
    } else {
        regex_escaped(s.drop_last()) + (if is_regex_meta(s.last()) {
            seq!['\\', s.last()]
        } else {
            seq![s.last()]
        })
    }
}

/// `regex::escape`: `s` with a backslash put before each regex
/// metacharacter, as regex-syntax's `escape_into` does.
#[verifier::external_body]
fn escape(s: &str) -> (r: String)
    ensures
        r@ == regex_escaped(s@),
{
    regex::escape(s)
}

/// Whether `regex::RegexBuilder` accepts `pattern` with the given case
/// sensitivity.
pub uninterp spec fn regex_builds(pattern: Seq<char>, case_insensitive: bool) -> bool;

/// Compiles `pattern` with `regex::RegexBuilder::new(..).case_insensitive(..)
/// .build()`. The contract claims only when it succeeds, by name.
#[verifier::external_body]
fn build_regex(pattern: &str, case_insensitive: bool) -> (r: Option<regex::Regex>)
    ensures
        r is Some <==> regex_builds(pattern@, case_insensitive),
{
    regex::RegexBuilder::new(pattern).case_insensitive(case_insensitive).build().ok()
}

/// A compiled search pattern: the regex, the pattern it was built from and
/// its case sensitivity.
pub struct SearchPattern {
    regex: regex::Regex,
    pattern: String,
    case_insensitive: bool,
}

impl View for SearchPattern {
    type V = (Seq<char>, bool);

    closed spec fn view(&self) -> (Seq<char>, bool) {
        (self.pattern@, self.case_insensitive)
    }
}

/// The byte spans `(start, end)` of the successive non-overlapping matches
/// of the regex built from `pattern` in `haystack`.
pub uninterp spec fn regex_match_spans(pattern: (Seq<char>, bool), haystack: Seq<char>) -> Seq<
    (usize, usize),
>;

/// `regex::Regex::find_iter`, each match taken as its byte span. A
/// `SearchPattern` is only made by `compile_with`, so its regex is the one
/// built from its pattern and case sensitivity; the contract names the spans
/// by those.
#[verifier::external_body]
fn match_spans(re: &SearchPattern, haystack: &str) -> (r: Vec<(usize, usize)>)
    ensures
        r@ == regex_match_spans(re@, haystack@),
{
    re.regex.find_iter(haystack).map(|m| (m.start(), m.end())).collect()
}

pub open spec fn has_uppercase(s: Seq<char>) -> bool {
    exists|i: int| 0 <= i < s.len() && char_is_uppercase(#[trigger] s[i])
}

pub open spec fn effective_pattern(pattern: Seq<char>, literal: bool) -> Seq<char> {
    if literal {
        regex_escaped(pattern)
    } else {
        pattern
    }
}

/// Compile a pattern with smart case (case-insensitive unless it contains an
/// uppercase letter). `literal` escapes regex metacharacters first.
pub fn compile_with(pattern: &str, literal: bool) -> (r: Option<SearchPattern>)
    ensures
        r is Some <==> regex_builds(
            effective_pattern(pattern@, literal),
            !has_uppercase(pattern@),
        ),
        r matches Some(p) ==> p@ == (effective_pattern(pattern@, literal), !has_uppercase(
            pattern@,
        )),
{
    let n = pattern.unicode_len();
    let mut has_upper = false;
    let mut i: usize = 0;
    while i < n
        invariant
            n == pattern@.len(),
            i <= n,
            has_upper == exists|k: int| 0 <= k < i && char_is_uppercase(#[trigger] pattern@[k]),
        decreases n - i,
    {
        if is_uppercase(pattern.get_char(i)) {
            has_upper = true;
        }
        i = i + 1;
    }
    let pat: String = if literal {
        escape(pattern)
    } else {
        pattern.to_owned()
    };
    match build_regex(pat.as_str(), !has_upper) {
        Some(regex) => Some(SearchPattern { regex, pattern: pat, case_insensitive: !has_upper }),
        None => None,
    }
}

/// A match as an inclusive cell range.
pub type Match = (Pos, Pos);

/// A never-written cell reads as a space.
pub open spec fn cell_char(sq: Square) -> char {
    if sq.ch == '\0' {
        ' '
    } else {
        sq.ch
    }
}

/// The UTF-8 length of `c`.
pub open spec fn char_width(c: char) -> int {
    let u = c as u32;
    if u < 0x80 {
        1
    } else if u < 0x800 {
        2
    } else if u < 0x10000 {
        3
    } else {
        4
    }
}

/// The UTF-8 length of `s`.
pub open spec fn utf8_len(s: Seq<char>) -> int
    decreases s.len(),
{
    if s.len() == 0 {
        0
    } else {
        utf8_len(s.drop_last()) + char_width(s.last())
    }
}

/// The flattened text so far: the chars, the byte offset and cell of each
/// char that stands for a cell, and where the current logical line began.
pub struct CorpusModel {
    pub text: Seq<char>,
    pub byte: Seq<usize>,
    pub pos: Seq<Pos>,
    pub line_start: int,
}

/// Appends the cells of row `y` from column `x` on.
pub open spec fn scan_row(m: CorpusModel, cells: Seq<Square>, y: int, cols: int, x: int) -> CorpusModel
    decreases cols - x,
{
    if x >= cols {
        m
    } else {
        let sq = if x < cells.len() {
            cells[x]
        } else {
            blank_square()
        };
        let m2 = if is_spacer_wide(sq.width) {
            m
        } else {
            CorpusModel {
                text: m.text.push(cell_char(sq)),
                byte: m.byte.push(utf8_len(m.text) as usize),
                pos: m.pos.push(Pos { row: Line(y as i32), col: Column(x as usize) }),
                line_start: m.line_start,
            }
        };
        scan_row(m2, cells, y, cols, x + 1)
    }
}

/// Drops the trailing spaces of the current logical line.
pub open spec fn trim_line(m: CorpusModel) -> CorpusModel
    decreases m.text.len(),
{
    if m.text.len() > 0 && m.text.len() > m.line_start && m.text.last() == ' ' {
        trim_line(
            CorpusModel {
                text: m.text.drop_last(),
                byte: m.byte.drop_last(),
                pos: m.pos.drop_last(),
                line_start: m.line_start,
            },
        )
    } else {
        m
    }
}

/// Ends a row: a row that does not wrap ends its logical line with `\n`.
pub open spec fn end_row(m: CorpusModel, wraps: bool) -> CorpusModel {
    if wraps {
        m
    } else {
        let t = trim_line(m);
        CorpusModel {
            text: t.text.push('\n'),
            byte: t.byte,
            pos: t.pos,
            line_start: t.text.len() as int + 1,
        }
    }
}

/// Flattens rows `y..` onto `m`.
pub open spec fn flatten_from(
    m: CorpusModel,
    rows: Seq<Seq<Square>>,
    wrapped: Seq<bool>,
    cols: int,
    y: int,
) -> CorpusModel
    decreases rows.len() - y,
{
    if y >= rows.len() {
        m
    } else {
        let wraps = y < wrapped.len() && wrapped[y];
        flatten_from(end_row(scan_row(m, rows[y], y, cols, 0), wraps), rows, wrapped, cols, y + 1)
    }
}

pub open spec fn empty_model() -> CorpusModel {
    CorpusModel { text: Seq::empty(), byte: Seq::empty(), pos: Seq::empty(), line_start: 0 }
}

/// The flattened visible grid.
pub open spec fn flatten(rows: Seq<Row<Square>>, cols: int, wrapped: Seq<bool>) -> CorpusModel {
    flatten_from(empty_model(), rows.map_values(|r: Row<Square>| r.inner@), wrapped, cols, 0)
}

/// A flattened, position-indexed copy of the visible grid rows.
pub struct VisibleCorpus {
    text: String,
    /// Byte offset of each emitted char in `text`, parallel to `pos`; the
    /// `\n` separators have no entry.
    byte: Vec<usize>,
    /// Visible-grid cell of each emitted char.
    pos: Vec<Pos>,
}

impl VisibleCorpus {
    pub closed spec fn text_spec(&self) -> Seq<char> {
        self.text@
    }

    pub closed spec fn byte_spec(&self) -> Seq<usize> {
        self.byte@
    }

    pub closed spec fn pos_spec(&self) -> Seq<Pos> {
        self.pos@
    }

    pub closed spec fn wf(&self) -> bool {
        self.byte@.len() == self.pos@.len()
    }
}

proof fn lemma_utf8_len_push(s: Seq<char>, c: char)
    ensures
        utf8_len(s.push(c)) == utf8_len(s) + char_width(c),
{
    assert(s.push(c).drop_last() =~= s);
}

proof fn lemma_utf8_len_bound(s: Seq<char>)
    ensures
        0 <= utf8_len(s) <= 4 * s.len(),
    decreases s.len(),
{
    if s.len() > 0 {
        lemma_utf8_len_bound(s.drop_last());
    }
}

/// The UTF-8 length of `c`.
fn width_of(c: char) -> (w: usize)
    ensures
        w == char_width(c),
{
    let u = c as u32;
    if u < 0x80 {
        1
    } else if u < 0x800 {
        2
    } else if u < 0x10000 {
        3
    } else {
        4
    }
}

impl VisibleCorpus {
    /// Flatten the visible grid; `wrapped[y]` says row `y` soft-wraps into
    /// `y + 1`.
    pub fn build(rows: &[Row<Square>], cols: usize, wrapped: &[bool]) -> (c: Self)
        requires
            rows@.len() <= i32::MAX,
            rows@.len() * (cols + 1) * 4 < usize::MAX,
        ensures
            c.wf(),
            c.text_spec() == flatten(rows@, cols as int, wrapped@).text,
            c.byte_spec() == flatten(rows@, cols as int, wrapped@).byte,
            c.pos_spec() == flatten(rows@, cols as int, wrapped@).pos,
    {
        let ghost cells = rows@.map_values(|r: Row<Square>| r.inner@);
        let mut text: Vec<char> = Vec::new();
        let mut byte: Vec<usize> = Vec::new();
        let mut pos: Vec<Pos> = Vec::new();
        let mut line_start: usize = 0;
        let mut text_bytes: usize = 0;
        let ghost mut budget: int = 0;
        let n = rows.len();
        let mut y: usize = 0;
        while y < n
            invariant
                n == rows@.len(),
                n <= i32::MAX,
                n * (cols + 1) * 4 < usize::MAX,
                cells == rows@.map_values(|r: Row<Square>| r.inner@),
                y <= n,
                budget == y * (cols + 1),
                text@.len() <= budget,
                text_bytes == utf8_len(text@),
                byte@.len() == pos@.len(),
                line_start <= text@.len(),
                pos@.len() + line_start >= text@.len(),
                flatten_from(
                    CorpusModel { text: text@, byte: byte@, pos: pos@, line_start: line_start as int },
                    cells,
                    wrapped@,
                    cols as int,
                    y as int,
                ) == flatten(rows@, cols as int, wrapped@),
            decreases n - y,
        {
            proof {
                assert((y + 1) * (cols + 1) <= n * (cols + 1)) by (nonlinear_arith)
                    requires
                        y + 1 <= n,
                ;
                assert((y + 1) * (cols + 1) == y * (cols + 1) + cols + 1) by (nonlinear_arith);
            }
            let ghost m0 = CorpusModel {
                text: text@,
                byte: byte@,
                pos: pos@,
                line_start: line_start as int,
            };
            let row = &rows[y];
            assert(row.inner@ == cells[y as int]);
            let mut x: usize = 0;
            while x < cols
                invariant
                    y < n,
                    n * (cols + 1) * 4 < usize::MAX,
                    budget + cols + 1 <= n * (cols + 1),
                    row.inner@ == cells[y as int],
                    y <= i32::MAX,
                    x <= cols,
                    text@.len() <= budget + x,
                    text_bytes == utf8_len(text@),
                    byte@.len() == pos@.len(),
                    line_start == m0.line_start,
                    line_start <= text@.len(),
                    pos@.len() + line_start >= text@.len(),
                    scan_row(
                        CorpusModel { text: text@, byte: byte@, pos: pos@, line_start: line_start as int },
                        cells[y as int],
                        y as int,
                        cols as int,
                        x as int,
                    ) == scan_row(m0, cells[y as int], y as int, cols as int, 0),
                decreases cols - x,
            {
                let sq: Square = if x < row.inner.len() {
                    row.inner[x]
                } else {
                    Square::blank()
                };
                let spacer = match sq.wide() {
                    Wide::Spacer | Wide::LeadingSpacer => true,
                    _ => false,
                };
                if !spacer {
                    let c = if sq.c() == '\0' {
                        ' '
                    } else {
                        sq.c()
                    };
                    proof {
                        lemma_utf8_len_push(text@, c);
                        lemma_utf8_len_bound(text@);
                        assert(4 * (text@.len() + 1) <= 4 * (budget + cols + 1));
                        assert(4 * (budget + cols + 1) <= n * (cols + 1) * 4) by (nonlinear_arith)
                            requires
                                budget + cols + 1 <= n * (cols + 1),
                        ;
                    }
                    byte.push(text_bytes);
                    pos.push(Pos::new(Line(y as i32), Column(x)));
                    text.push(c);
                    text_bytes = text_bytes + width_of(c);
                }
                x = x + 1;
            }
            let wraps = y < wrapped.len() && wrapped[y];
            if !wraps {
                let ghost m1 = CorpusModel {
                    text: text@,
                    byte: byte@,
                    pos: pos@,
                    line_start: line_start as int,
                };
                while text.len() > line_start && text[text.len() - 1] == ' '
                    invariant
                        text_bytes == utf8_len(text@),
                        byte@.len() == pos@.len(),
                        line_start <= text@.len(),
                        pos@.len() + line_start >= text@.len(),
                        line_start == m1.line_start,
                        text@.len() <= m1.text.len(),
                        trim_line(
                            CorpusModel {
                                text: text@,
                                byte: byte@,
                                pos: pos@,
                                line_start: line_start as int,
                            },
                        ) == trim_line(m1),
                    decreases text@.len(),
                {
                    proof {
                        assert(text@.drop_last().push(' ') =~= text@);
                        lemma_utf8_len_push(text@.drop_last(), ' ');
                        lemma_utf8_len_bound(text@.drop_last());
                    }
                    text.pop();
                    byte.pop();
                    pos.pop();
                    text_bytes = text_bytes - 1;
                }
                proof {
                    lemma_utf8_len_push(text@, '\n');
                    lemma_utf8_len_bound(text@);
                    assert(4 * (text@.len() + 1) <= 4 * (budget + cols + 1));
                    assert(4 * (budget + cols + 1) <= n * (cols + 1) * 4) by (nonlinear_arith)
                        requires
                            budget + cols + 1 <= n * (cols + 1),
                    ;
                }
                text.push('\n');
                text_bytes = text_bytes + 1;
                line_start = text.len();
            }
            proof {
                budget = budget + cols + 1;
            }
            y = y + 1;
        }
        let t = string_from_chars(text.as_slice());
        VisibleCorpus { text: t, byte, pos }
    }
}

/// Index of the first of `xs` from `i` on that is at least `v` (the length
/// when none is); on an ascending sequence, the partition point of `< v`.
pub open spec fn first_at_least(xs: Seq<usize>, v: int, i: int) -> int
    decreases xs.len() - i,
{
    if i >= xs.len() {
        xs.len() as int
    } else if xs[i] >= v {
        i
    } else {
        first_at_least(xs, v, i + 1)
    }
}

/// Index of the first of `xs` from `i` on that is greater than `v`; on an
/// ascending sequence, the partition point of `<= v`.
pub open spec fn first_above(xs: Seq<usize>, v: int, i: int) -> int
    decreases xs.len() - i,
{
    if i >= xs.len() {
        xs.len() as int
    } else if xs[i] > v {
        i
    } else {
        first_above(xs, v, i + 1)
    }
}

pub open spec fn min_int(a: int, b: int) -> int {
    if a <= b {
        a
    } else {
        b
    }
}

pub open spec fn sat_dec(a: int) -> int {
    if a > 0 {
        a - 1
    } else {
        0
    }
}

/// The inclusive cell range of the byte range `start..end`.
pub open spec fn range_spec(byte: Seq<usize>, pos: Seq<Pos>, start: int, end: int) -> Match {
    let last = pos.len() - 1;
    let s = min_int(first_at_least(byte, start, 0), last);
    let e = min_int(sat_dec(first_at_least(byte, end, 0)), last);
    (pos[s], pos[e])
}

/// The cell ranges of the non-empty spans among the first `n` of `spans`.
pub open spec fn ranges_upto(
    byte: Seq<usize>,
    pos: Seq<Pos>,
    spans: Seq<(usize, usize)>,
    n: int,
) -> Seq<Match>
    decreases n,
{
    if n <= 0 {
        Seq::empty()
    } else {
        let before = ranges_upto(byte, pos, spans, n - 1);
        let sp = spans[n - 1];
        if sp.0 != sp.1 {
            before.push(range_spec(byte, pos, sp.0 as int, sp.1 as int))
        } else {
            before
        }
    }
}

/// Index of the first match from `i` on whose start is not before
/// `origin`.
pub open spec fn first_not_before(items: Seq<Match>, origin: Pos, i: int) -> int
    decreases items.len() - i,
{
    if i >= items.len() {
        items.len() as int
    } else if !pos_lt(items[i].0, origin) {
        i
    } else {
        first_not_before(items, origin, i + 1)
    }
}

/// Index of the last match below `n` whose start is not after `origin`
/// (-1 when none is).
pub open spec fn last_not_after(items: Seq<Match>, origin: Pos, n: int) -> int
    decreases n,
{
    if n <= 0 {
        -1
    } else if pos_le(items[n - 1].0, origin) {
        n - 1
    } else {
        last_not_after(items, origin, n - 1)
    }
}

/// The nearest match to `origin` in `direction`, wrapping to the far end
/// when none lies that way (`None` only for no matches).
pub open spec fn nearest_match_spec(items: Seq<Match>, origin: Pos, direction: Direction) -> Option<
    Match,
> {
    if items.len() == 0 {
        None
    } else if direction == Direction::Right {
        let i = first_not_before(items, origin, 0);
        if i < items.len() {
            Some(items[i])
        } else {
            Some(items[0])
        }
    } else {
        let i = last_not_after(items, origin, items.len() as int);
        if i >= 0 {
            Some(items[i])
        } else {
            Some(items[items.len() - 1])
        }
    }
}

proof fn lemma_last_not_after(items: Seq<Match>, origin: Pos, n: int)
    requires
        0 <= n <= items.len(),
    ensures
        -1 <= last_not_after(items, origin, n) < n,
        last_not_after(items, origin, n) >= 0 ==> pos_le(
            items[last_not_after(items, origin, n)].0,
            origin,
        ),
        forall|j: int|
            last_not_after(items, origin, n) < j < n ==> !pos_le(#[trigger] items[j].0, origin),
    decreases n,
{
    if n > 0 && !pos_le(items[n - 1].0, origin) {
        lemma_last_not_after(items, origin, n - 1);
    }
}

proof fn lemma_first_not_before(items: Seq<Match>, origin: Pos, i: int)
    requires
        0 <= i <= items.len(),
    ensures
        i <= first_not_before(items, origin, i) <= items.len(),
        first_not_before(items, origin, i) < items.len() ==> !pos_lt(
            items[first_not_before(items, origin, i)].0,
            origin,
        ),
        forall|j: int|
            i <= j < first_not_before(items, origin, i) ==> pos_lt(#[trigger] items[j].0, origin),
    decreases items.len() - i,
{
    if i < items.len() && pos_lt(items[i].0, origin) {
        lemma_first_not_before(items, origin, i + 1);
    }
}

/// Match starts in ascending reading order.
pub open spec fn starts_ascending(items: Seq<Match>) -> bool {
    forall|i: int, j: int| 0 <= i <= j < items.len() ==> pos_le(#[trigger] items[i].0, #[trigger] items[j].0)
}

/// Searching backward (`Left`) finds, among the matches, the last one that
/// starts at or before `origin`; when none does, the search wraps around to
/// the last match. Over matches in ascending order that is the match with
/// the greatest start not after `origin`, else the greatest start overall.
pub proof fn lemma_nearest_match_backward(items: Seq<Match>, origin: Pos)
    requires
        items.len() > 0,
    ensures
        nearest_match_spec(items, origin, Direction::Left) is Some,
        ({
            let r = nearest_match_spec(items, origin, Direction::Left).unwrap();
            &&& exists|k: int|
                0 <= k < items.len() && r == items[k] && (if exists|j: int|
                    0 <= j < items.len() && pos_le(#[trigger] items[j].0, origin) {
                    pos_le(items[k].0, origin) && forall|j: int|
                        k < j < items.len() ==> !pos_le(#[trigger] items[j].0, origin)
                } else {
                    k == items.len() - 1
                })
            &&& starts_ascending(items) ==> if exists|j: int|
                0 <= j < items.len() && pos_le(#[trigger] items[j].0, origin) {
                &&& pos_le(r.0, origin)
                &&& forall|j: int|
                    0 <= j < items.len() && pos_le(#[trigger] items[j].0, origin) ==> pos_le(
                        items[j].0,
                        r.0,
                    )
            } else {
                forall|j: int| 0 <= j < items.len() ==> pos_le(#[trigger] items[j].0, r.0)
            }
        }),
{
    let n = items.len() as int;
    lemma_last_not_after(items, origin, n);
    let i = last_not_after(items, origin, n);
    let k = if i >= 0 { i } else { n - 1 };
    let r = items[k];
    assert(nearest_match_spec(items, origin, Direction::Left) == Some(r));
    if exists|j: int| 0 <= j < items.len() && pos_le(#[trigger] items[j].0, origin) {
        let j0 = choose|j: int| 0 <= j < items.len() && pos_le(#[trigger] items[j].0, origin);
        assert(i >= 0);
    } else {
        assert(i < 0) by {
            if i >= 0 {
                assert(pos_le(items[i].0, origin));
            }
        }
    }
    if starts_ascending(items) {
        if exists|j: int| 0 <= j < items.len() && pos_le(#[trigger] items[j].0, origin) {
            assert forall|j: int|
                0 <= j < items.len() && pos_le(#[trigger] items[j].0, origin) implies pos_le(
                items[j].0,
                r.0,
            ) by {
                if j > k {
                    assert(!pos_le(items[j].0, origin));
                } else {
                    assert(pos_le(items[j].0, items[k].0));
                }
            }
        } else {
            assert forall|j: int| 0 <= j < items.len() implies pos_le(#[trigger] items[j].0, r.0) by {
                assert(pos_le(items[j].0, items[k].0));
            }
        }
    }
}

/// Searching forward (`Right`) finds the first match that starts at or
/// after `origin`; when none does, the search wraps around to the first
/// match. Over matches in ascending order that is the match with the least
/// start not before `origin`, else the least start overall.
pub proof fn lemma_nearest_match_forward(items: Seq<Match>, origin: Pos)
    requires
        items.len() > 0,
    ensures
        nearest_match_spec(items, origin, Direction::Right) is Some,
        ({
            let r = nearest_match_spec(items, origin, Direction::Right).unwrap();
            &&& exists|k: int|
                0 <= k < items.len() && r == items[k] && (if exists|j: int|
                    0 <= j < items.len() && !pos_lt(#[trigger] items[j].0, origin) {
                    !pos_lt(items[k].0, origin) && forall|j: int|
                        0 <= j < k ==> pos_lt(#[trigger] items[j].0, origin)
                } else {
                    k == 0
                })
            &&& starts_ascending(items) ==> if exists|j: int|
                0 <= j < items.len() && !pos_lt(#[trigger] items[j].0, origin) {
                &&& !pos_lt(r.0, origin)
                &&& forall|j: int|
                    0 <= j < items.len() && !pos_lt(#[trigger] items[j].0, origin) ==> pos_le(
                        r.0,
                        items[j].0,
                    )
            } else {
                forall|j: int| 0 <= j < items.len() ==> pos_le(r.0, #[trigger] items[j].0)
            }
        }),
{
    let n = items.len() as int;
    lemma_first_not_before(items, origin, 0);
    let i = first_not_before(items, origin, 0);
    let k = if i < n { i } else { 0 };
    let r = items[k];
    assert(nearest_match_spec(items, origin, Direction::Right) == Some(r));
    if exists|j: int| 0 <= j < items.len() && !pos_lt(#[trigger] items[j].0, origin) {
        let j0 = choose|j: int| 0 <= j < items.len() && !pos_lt(#[trigger] items[j].0, origin);
        assert(i < n);
    } else {
        assert(i == n) by {
            if i < n {
                assert(!pos_lt(items[i].0, origin));
            }
        }
    }
    if starts_ascending(items) {
        if exists|j: int| 0 <= j < items.len() && !pos_lt(#[trigger] items[j].0, origin) {
            assert forall|j: int|
                0 <= j < items.len() && !pos_lt(#[trigger] items[j].0, origin) implies pos_le(
                r.0,
                items[j].0,
            ) by {
                if j < k {
                    assert(pos_lt(items[j].0, origin));
                } else {
                    assert(pos_le(items[k].0, items[j].0));
                }
            }
        } else {
            assert forall|j: int| 0 <= j < items.len() implies pos_le(r.0, #[trigger] items[j].0) by {
                assert(pos_le(items[k].0, items[j].0));
            }
        }
    }
}

/// Nearest match to `origin` in `direction` over an ascending list,
/// wrapping to the far end.
fn nearest_match(items: &Vec<Match>, origin: Pos, direction: Direction) -> (r: Option<Match>)
    ensures
        r == nearest_match_spec(items@, origin, direction),
{
    let n = items.len();
    if n == 0 {
        return None;
    }
    match direction {
        Direction::Right => {
            let mut i: usize = 0;
            while i < n
                invariant
                    n == items@.len(),
                    n > 0,
                    direction == Direction::Right,
                    i <= n,
                    first_not_before(items@, origin, i as int) == first_not_before(
                        items@,
                        origin,
                        0,
                    ),
                decreases n - i,
            {
                let start = items[i].0;
                if !(start.row.0 < origin.row.0 || (start.row.0 == origin.row.0 && start.col.0
                    < origin.col.0)) {
                    return Some(items[i]);
                }
                i = i + 1;
            }
            Some(items[0])
        },
        Direction::Left => {
            let mut i: usize = n;
            while i > 0
                invariant
                    n == items@.len(),
                    n > 0,
                    direction == Direction::Left,
                    i <= n,
                    last_not_after(items@, origin, i as int) == last_not_after(
                        items@,
                        origin,
                        n as int,
                    ),
                decreases i,
            {
                let start = items[i - 1].0;
                if start.row.0 < origin.row.0 || (start.row.0 == origin.row.0 && start.col.0
                    <= origin.col.0) {
                    return Some(items[i - 1]);
                }
                i = i - 1;
            }
            Some(items[n - 1])
        },
    }
}

/// Index of the first of `xs` at least `v` (scanning from the start).
fn partition_below(xs: &Vec<usize>, v: usize) -> (r: usize)
    ensures
        r == first_at_least(xs@, v as int, 0),
{
    let mut i: usize = 0;
    while i < xs.len()
        invariant
            i <= xs@.len(),
            first_at_least(xs@, v as int, i as int) == first_at_least(xs@, v as int, 0),
        decreases xs@.len() - i,
    {
        if xs[i] >= v {
            return i;
        }
        i = i + 1;
    }
    i
}

impl VisibleCorpus {
    /// Map a byte range to an inclusive visible-cell range.
    fn range(&self, start: usize, end: usize) -> (r: Match)
        requires
            self.wf(),
            self.pos_spec().len() > 0,
        ensures
            r == range_spec(self.byte_spec(), self.pos_spec(), start as int, end as int),
    {
        let last = self.pos.len() - 1;
        let s0 = partition_below(&self.byte, start);
        let s = if s0 < last {
            s0
        } else {
            last
        };
        let e0 = partition_below(&self.byte, end);
        let e1 = if e0 > 0 {
            e0 - 1
        } else {
            0
        };
        let e = if e1 < last {
            e1
        } else {
            last
        };
        (self.pos[s], self.pos[e])
    }

    /// All matches, in ascending (row-major) order, as inclusive cell
    /// ranges; empty matches are ignored.
    pub fn find_all(&self, re: &SearchPattern) -> (r: Vec<Match>)
        requires
            self.wf(),
        ensures
            r@ == (if self.pos_spec().len() == 0 {
                Seq::empty()
            } else {
                let spans = regex_match_spans(re@, self.text_spec());
                ranges_upto(self.byte_spec(), self.pos_spec(), spans, spans.len() as int)
            }),
    {
        let mut out: Vec<Match> = Vec::new();
        if self.pos.len() == 0 {
            return out;
        }
        let spans = match_spans(re, self.text.as_str());
        let mut i: usize = 0;
        while i < spans.len()
            invariant
                self.wf(),
                self.pos_spec().len() > 0,
                spans@ == regex_match_spans(re@, self.text_spec()),
                i <= spans@.len(),
                out@ == ranges_upto(self.byte_spec(), self.pos_spec(), spans@, i as int),
            decreases spans@.len() - i,
        {
            let (start, end) = spans[i];
            if start != end {
                let m = self.range(start, end);
                out.push(m);
            }
            i = i + 1;
        }
        out
    }

    /// The nearest match from `origin` in `direction`, wrapping; the match
    /// start is what is compared with `origin`.
    pub fn find(&self, re: &SearchPattern, origin: Pos, direction: Direction) -> (r: Option<Match>)
        requires
            self.wf(),
        ensures
            r == nearest_match_spec(
                (if self.pos_spec().len() == 0 {
                    Seq::empty()
                } else {
                    let spans = regex_match_spans(re@, self.text_spec());
                    ranges_upto(self.byte_spec(), self.pos_spec(), spans, spans.len() as int)
                }),
                origin,
                direction,
            ),
    {
        let all = self.find_all(re);
        nearest_match(&all, origin, direction)
    }
}

/// The grid rows that start after row 0, walking the wrapped text `wb`
/// from `wi` and the unwrapped text `ub` from `ui`: at each `\n` of the
/// unwrapped text a grid row ends, and the wrapped text has the `\n` too
/// only at a hard line end.
pub open spec fn deep_walk(wb: Seq<u8>, ub: Seq<u8>, wi: int, ui: int) -> Seq<usize>
    decreases ub.len() - ui,
{
    if ui >= ub.len() {
        Seq::empty()
    } else if ub[ui] == 10 {
        let wi2 = if wi < wb.len() && wb[wi] == 10 {
            wi + 1
        } else {
            wi
        };
        seq![wi2 as usize] + deep_walk(wb, ub, wi2, ui + 1)
    } else {
        deep_walk(wb, ub, wi + 1, ui + 1)
    }
}

/// The byte offset in the wrapped text where each grid row begins.
pub open spec fn row_starts(wb: Seq<u8>, ub: Seq<u8>) -> Seq<usize> {
    seq![0usize] + deep_walk(wb, ub, 0, 0)
}

/// The scrollback search corpus: the whole buffer's text with soft-wrapped
/// rows joined (the matching surface), and where each grid row begins in it.
pub struct DeepCorpus {
    text: String,
    row_start: Vec<usize>,
}

impl DeepCorpus {
    pub closed spec fn text_spec(&self) -> Seq<char> {
        self.text@
    }

    pub closed spec fn row_start_spec(&self) -> Seq<usize> {
        self.row_start@
    }

    /// Co-walk the two texts of the buffer (`wrapped`: soft-wrapped rows
    /// joined; `unwrapped`: one line per grid row, both untrimmed) to map
    /// byte offsets of `wrapped` to grid rows.
    pub fn build(wrapped: String, unwrapped: &str) -> (c: Self)
        ensures
            c.text_spec() == wrapped@,
            c.row_start_spec() == row_starts(encode_utf8(wrapped@), encode_utf8(unwrapped@)),
    {
        let mut row_start: Vec<usize> = Vec::new();
        row_start.push(0);
        let wb = wrapped.as_str().as_bytes();
        let ub = unwrapped.as_bytes();
        let mut wi: usize = 0;
        let mut ui: usize = 0;
        while ui < ub.len()
            invariant
                wi <= ui <= ub@.len(),
                row_start@ + deep_walk(wb@, ub@, wi as int, ui as int) == row_starts(wb@, ub@),
            decreases ub@.len() - ui,
        {
            if ub[ui] == 10u8 {
                ui = ui + 1;
                if wi < wb.len() && wb[wi] == 10u8 {
                    wi = wi + 1;
                }
                row_start.push(wi);
            } else {
                wi = wi + 1;
                ui = ui + 1;
            }
        }
        DeepCorpus { text: wrapped, row_start }
    }
}

/// Index of the first row from `i` on whose row number, as an `i32`, is
/// not below `origin`.
pub open spec fn first_row_not_before(rows: Seq<usize>, origin: i32, i: int) -> int
    decreases rows.len() - i,
{
    if i >= rows.len() {
        rows.len() as int
    } else if rows[i] as i32 >= origin {
        i
    } else {
        first_row_not_before(rows, origin, i + 1)
    }
}

/// Index of the last row below `n` whose row number, as an `i32`, is not
/// above `origin` (-1 when none is).
pub open spec fn last_row_not_after(rows: Seq<usize>, origin: i32, n: int) -> int
    decreases n,
{
    if n <= 0 {
        -1
    } else if rows[n - 1] as i32 <= origin {
        n - 1
    } else {
        last_row_not_after(rows, origin, n - 1)
    }
}

/// The nearest row to `origin` in `direction`, wrapping to the far end.
pub open spec fn nearest_row_spec(rows: Seq<usize>, origin: i32, direction: Direction) -> Option<
    usize,
> {
    if rows.len() == 0 {
        None
    } else if direction == Direction::Right {
        let i = first_row_not_before(rows, origin, 0);
        if i < rows.len() {
            Some(rows[i])
        } else {
            Some(rows[0])
        }
    } else {
        let i = last_row_not_after(rows, origin, rows.len() as int);
        if i >= 0 {
            Some(rows[i])
        } else {
            Some(rows[rows.len() - 1])
        }
    }
}

proof fn lemma_last_row_not_after(rows: Seq<usize>, origin: i32, n: int)
    requires
        0 <= n <= rows.len(),
    ensures
        -1 <= last_row_not_after(rows, origin, n) < n,
        last_row_not_after(rows, origin, n) >= 0 ==> rows[last_row_not_after(rows, origin, n)] as i32
            <= origin,
        forall|j: int| last_row_not_after(rows, origin, n) < j < n ==> #[trigger] rows[j] as i32 > origin,
    decreases n,
{
    if n > 0 && !(rows[n - 1] as i32 <= origin) {
        lemma_last_row_not_after(rows, origin, n - 1);
    }
}

proof fn lemma_first_row_not_before(rows: Seq<usize>, origin: i32, i: int)
    requires
        0 <= i <= rows.len(),
    ensures
        i <= first_row_not_before(rows, origin, i) <= rows.len(),
        first_row_not_before(rows, origin, i) < rows.len() ==> rows[first_row_not_before(rows, origin, i)] as i32
            >= origin,
        forall|j: int| i <= j < first_row_not_before(rows, origin, i) ==> (#[trigger] rows[j] as i32) < origin,
    decreases rows.len() - i,
{
    if i < rows.len() && !(rows[i] as i32 >= origin) {
        lemma_first_row_not_before(rows, origin, i + 1);
    }
}

/// Searching rows backward finds the last matching row at or above
/// `origin`, else wraps to the last matching row; forward, the first at or
/// below `origin`, else the first matching row.
pub proof fn lemma_nearest_row_wraps(rows: Seq<usize>, origin: i32)
    requires
        rows.len() > 0,
    ensures
        ({
            let back = nearest_row_spec(rows, origin, Direction::Left);
            let fwd = nearest_row_spec(rows, origin, Direction::Right);
            &&& exists|k: int|
                0 <= k < rows.len() && back == Some(rows[k]) && (if exists|j: int|
                    0 <= j < rows.len() && #[trigger] rows[j] as i32 <= origin {
                    rows[k] as i32 <= origin && forall|j: int|
                        k < j < rows.len() ==> #[trigger] rows[j] as i32 > origin
                } else {
                    k == rows.len() - 1
                })
            &&& exists|k: int|
                0 <= k < rows.len() && fwd == Some(rows[k]) && (if exists|j: int|
                    0 <= j < rows.len() && #[trigger] rows[j] as i32 >= origin {
                    rows[k] as i32 >= origin && forall|j: int|
                        0 <= j < k ==> (#[trigger] rows[j] as i32) < origin
                } else {
                    k == 0
                })
        }),
{
    let n = rows.len() as int;
    lemma_last_row_not_after(rows, origin, n);
    lemma_first_row_not_before(rows, origin, 0);
    let i = last_row_not_after(rows, origin, n);
    let kb = if i >= 0 { i } else { n - 1 };
    assert(nearest_row_spec(rows, origin, Direction::Left) == Some(rows[kb]));
    if exists|j: int| 0 <= j < rows.len() && #[trigger] rows[j] as i32 <= origin {
        let j0 = choose|j: int| 0 <= j < rows.len() && #[trigger] rows[j] as i32 <= origin;
        assert(i >= 0);
    }
    let f = first_row_not_before(rows, origin, 0);
    let kf = if f < n { f } else { 0 };
    assert(nearest_row_spec(rows, origin, Direction::Right) == Some(rows[kf]));
    if exists|j: int| 0 <= j < rows.len() && #[trigger] rows[j] as i32 >= origin {
        let j0 = choose|j: int| 0 <= j < rows.len() && #[trigger] rows[j] as i32 >= origin;
        assert(f < n);
    }
}

fn nearest_row(rows: &Vec<usize>, origin: i32, direction: Direction) -> (r: Option<usize>)
    ensures
        r == nearest_row_spec(rows@, origin, direction),
{
    let n = rows.len();
    if n == 0 {
        return None;
    }
    match direction {
        Direction::Right => {
            let mut i: usize = 0;
            while i < n
                invariant
                    n == rows@.len(),
                    n > 0,
                    direction == Direction::Right,
                    i <= n,
                    first_row_not_before(rows@, origin, i as int) == first_row_not_before(
                        rows@,
                        origin,
                        0,
                    ),
                decreases n - i,
            {
                if rows[i] as i32 >= origin {
                    return Some(rows[i]);
                }
                i = i + 1;
            }
            Some(rows[0])
        },
        Direction::Left => {
            let mut i: usize = n;
            while i > 0
                invariant
                    n == rows@.len(),
                    n > 0,
                    direction == Direction::Left,
                    i <= n,
                    last_row_not_after(rows@, origin, i as int) == last_row_not_after(
                        rows@,
                        origin,
                        n as int,
                    ),
                decreases i,
            {
                if rows[i - 1] as i32 <= origin {
                    return Some(rows[i - 1]);
                }
                i = i - 1;
            }
            Some(rows[n - 1])
        },
    }
}

/// The number of non-empty spans among the first `n` of `spans`.
pub open spec fn nonempty_count(spans: Seq<(usize, usize)>, n: int) -> int
    decreases n,
{
    if n <= 0 {
        0
    } else {
        nonempty_count(spans, n - 1) + if spans[n - 1].0 != spans[n - 1].1 {
            1int
        } else {
            0int
        }
    }
}

/// The grid rows of the non-empty spans among the first `n` of `spans`.
pub open spec fn span_rows_upto(row_start: Seq<usize>, spans: Seq<(usize, usize)>, n: int) -> Seq<
    usize,
>
    decreases n,
{
    if n <= 0 {
        Seq::empty()
    } else {
        let before = span_rows_upto(row_start, spans, n - 1);
        if spans[n - 1].0 != spans[n - 1].1 {
            before.push(sat_dec(first_above(row_start, spans[n - 1].0 as int, 0)) as usize)
        } else {
            before
        }
    }
}

impl DeepCorpus {
    /// Total number of non-empty matches of `re` across the whole buffer.
    pub fn count(&self, re: &SearchPattern) -> (n: usize)
        ensures
            n == nonempty_count(
                regex_match_spans(re@, self.text_spec()),
                regex_match_spans(re@, self.text_spec()).len() as int,
            ),
    {
        let spans = match_spans(re, self.text.as_str());
        let mut n: usize = 0;
        let mut i: usize = 0;
        while i < spans.len()
            invariant
                i <= spans@.len(),
                n == nonempty_count(spans@, i as int),
                n <= i,
            decreases spans@.len() - i,
        {
            if spans[i].0 != spans[i].1 {
                n = n + 1;
            }
            i = i + 1;
        }
        n
    }

    /// The grid row holding byte `offset` of the text.
    pub fn grid_row_of(&self, offset: usize) -> (r: usize)
        ensures
            r == sat_dec(first_above(self.row_start_spec(), offset as int, 0)),
    {
        let mut i: usize = 0;
        while i < self.row_start.len()
            invariant
                i <= self.row_start@.len(),
                first_above(self.row_start@, offset as int, i as int) == first_above(
                    self.row_start@,
                    offset as int,
                    0,
                ),
            decreases self.row_start@.len() - i,
        {
            if self.row_start[i] > offset {
                return if i > 0 {
                    i - 1
                } else {
                    0
                };
            }
            i = i + 1;
        }
        if i > 0 {
            i - 1
        } else {
            0
        }
    }

    /// The grid row of the nearest match to `origin_row` in `direction`,
    /// wrapping; `None` when the pattern matches nowhere.
    pub fn find_row(&self, re: &SearchPattern, origin_row: i32, direction: Direction) -> (r: Option<
        usize,
    >)
        ensures
            r == nearest_row_spec(
                span_rows_upto(
                    self.row_start_spec(),
                    regex_match_spans(re@, self.text_spec()),
                    regex_match_spans(re@, self.text_spec()).len() as int,
                ),
                origin_row,
                direction,
            ),
    {
        let spans = match_spans(re, self.text.as_str());
        let mut rows: Vec<usize> = Vec::new();
        let mut i: usize = 0;
        while i < spans.len()
            invariant
                i <= spans@.len(),
                spans@ == regex_match_spans(re@, self.text_spec()),
                rows@ == span_rows_upto(self.row_start_spec(), spans@, i as int),
            decreases spans@.len() - i,
        {
            if spans[i].0 != spans[i].1 {
                let row = self.grid_row_of(spans[i].0);
                rows.push(row);
            }
            i = i + 1;
        }
        nearest_row(&rows, origin_row, direction)
    }
}

} // verus!
