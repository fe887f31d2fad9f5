use vstd::prelude::*;

use crate::board::is_grid;
use crate::text::{
    decimal_text, digit_char, digit_value, fold_digits, push_decimal, NumberError,
};
use crate::value::{value_of_text, Value, ValueError};

verus! {

/// The characters that Unicode marks `White_Space`.
pub open spec fn is_whitespace(c: char) -> bool {
    ('\t' <= c && c <= '\r') || c == ' ' || c == '\u{85}' || c == '\u{a0}' || c == '\u{1680}' || (
    '\u{2000}' <= c && c <= '\u{200a}') || c == '\u{2028}' || c == '\u{2029}' || c == '\u{202f}'
        || c == '\u{205f}' || c == '\u{3000}'
}

/// `s` cut at each line feed; the line feeds themselves are dropped, and
/// text that ends in a line feed has an empty last piece.
pub open spec fn text_lines(s: Seq<char>) -> Seq<Seq<char>>
    decreases s.len(),
{
    if s.len() == 0 {
        seq![seq![]]
    } else {
        let prev = text_lines(s.drop_last());
        if s.last() == '\n' {
            prev.push(seq![])
        } else {
            prev.update(prev.len() - 1, prev.last().push(s.last()))
        }
    }
}

/// The maximal runs of characters of `s` that are not whitespace, in order.
pub open spec fn words(s: Seq<char>) -> Seq<Seq<char>>
    decreases s.len(),
{
    if s.len() == 0 {
        seq![]
    } else {
        let p = s.drop_last();
        let c = s.last();
        let prev = words(p);
        if is_whitespace(c) {
            prev
        } else if p.len() == 0 || is_whitespace(p.last()) {
            prev.push(seq![c])
        } else {
            prev.update(prev.len() - 1, prev.last().push(c))
        }
    }
}

/// Why a piece of text is not a board. Each error carries the number,
/// counted from 1, of the line where it was found.
#[derive(Debug, Clone, Copy, PartialEq, Eq, Structural)]
pub enum BoardError {
    /// A line after the ninth holds a value.
    TooManyLines(usize),
    /// A line holds more than nine values.
    TooManyValues(usize),
    /// A value on the line cannot be read.
    BadValue(usize, ValueError),
}

impl BoardError {
    pub open spec fn text(self) -> Seq<char> {
        match self {
            BoardError::TooManyLines(n) => "in Board string on line "@ + decimal_text(n as nat)
                + " there are too many lines; must have 9 lines"@,
            BoardError::TooManyValues(n) => "in Board string on line "@ + decimal_text(n as nat)
                + " there are too many values"@,
            BoardError::BadValue(n, e) => "in Board string on line "@ + decimal_text(n as nat)
                + " value could not be parsed: "@ + e.text(),
        }
    }
}

/// The first error among the words `w[j..]` of line `k` (counted from 0),
/// which is one of the first nine lines.
pub open spec fn first_value_error(k: int, w: Seq<Seq<char>>, j: int) -> Option<BoardError>
    decreases w.len() - j,
{
    if j < 0 || j >= w.len() {
        None
    } else if j >= 9 {
        Some(BoardError::TooManyValues((k + 1) as usize))
    } else {
        match value_of_text(w[j]) {
            Err(e) => Some(BoardError::BadValue((k + 1) as usize, e)),
            Ok(_) => first_value_error(k, w, j + 1),
        }
    }
}

/// The first error on line `k` (counted from 0) whose words are `w`.
pub open spec fn line_error(k: int, w: Seq<Seq<char>>) -> Option<BoardError> {
    if k >= 9 {
        if w.len() > 0 {
            Some(BoardError::TooManyLines((k + 1) as usize))
        } else {
            None
        }
    } else {
        first_value_error(k, w, 0)
    }
}

/// The first error on the lines from `k` on.
pub open spec fn first_error(lines: Seq<Seq<char>>, k: int) -> Option<BoardError>
    decreases lines.len() - k,
{
    if k < 0 || k >= lines.len() {
        None
    } else {
        match line_error(k, words(lines[k])) {
            Some(e) => Some(e),
            None => first_error(lines, k + 1),
        }
    }
}

/// The cell at row `r` and column `c` that `lines` describe: the value of the
/// `c`-th word of line `r`, or `Empty` where the text has no such word.
pub open spec fn cell_of_text(lines: Seq<Seq<char>>, r: int, c: int) -> Value {
    if r < lines.len() && c < words(lines[r]).len() {
        match value_of_text(words(lines[r])[c]) {
            Ok(v) => v,
            Err(_) => Value::Empty,
        }
    } else {
        Value::Empty
    }
}

/// Reading of a board from text: one line per row, values separated by
/// whitespace; missing lines and values are empty cells.
pub open spec fn board_of_text(s: Seq<char>) -> Result<Seq<Seq<Value>>, BoardError> {
    let lines = text_lines(s);
    match first_error(lines, 0) {
        Some(e) => Err(e),
        None => Ok(Seq::new(9, |r: int| Seq::new(9, |c: int| cell_of_text(lines, r, c)))),
    }
}

/// The codes of the first `n` cells of `row`, separated by single spaces.
pub open spec fn row_code_text(row: Seq<Value>, n: int) -> Seq<char>
    decreases n,
{
    if n <= 0 {
        seq![]
    } else if n == 1 {
        seq![digit_char(row[0].code())]
    } else {
        row_code_text(row, n - 1) + seq![' ', digit_char(row[n - 1].code())]
    }
}

/// The first `n` rows of `g` in the saved form, each ended by a line feed.
pub open spec fn rows_code_text(g: Seq<Seq<Value>>, n: int) -> Seq<char>
    decreases n,
{
    if n <= 0 {
        seq![]
    } else {
        rows_code_text(g, n - 1) + row_code_text(g[n - 1], 9) + seq!['\n']
    }
}

/// The saved form of a board: nine lines of nine codes.
pub open spec fn board_text(g: Seq<Seq<Value>>) -> Seq<char> {
    rows_code_text(g, 9)
}

/// Whether, in the displayed form, a bar follows column `k` and a line of
/// dashes follows row `k`.
pub open spec fn ends_band(k: int) -> bool {
    k % 3 == 2 && k != 8
}

/// The first `n` cells of `row` as displayed: each cell's character, then a
/// bar after the third and sixth cell and a space after the others.
pub open spec fn row_display(row: Seq<Value>, n: int) -> Seq<char>
    decreases n,
{
    if n <= 0 {
        seq![]
    } else {
        row_display(row, n - 1) + seq![
            row[n - 1].display_char(),
            if ends_band(n - 1) {
                '|'
            } else {
                ' '
            },
        ]
    }
}

/// The line drawn under the third and the sixth row.
pub open spec fn band_line() -> Seq<char> {
    "\n  -----+-----+-----"@
}

/// The first `n` rows of `g` as displayed, each with its number.
pub open spec fn rows_display(g: Seq<Seq<Value>>, n: int) -> Seq<char>
    decreases n,
{
    if n <= 0 {
        seq![]
    } else {
        rows_display(g, n - 1) + seq![digit_char(n as nat), ' '] + row_display(g[n - 1], 9) + (
        if ends_band(n - 1) {
            band_line()
        } else {
            seq![]
        }) + seq!['\n']
    }
}

/// The header line of the displayed form.
pub open spec fn header() -> Seq<char> {
    "  A B C D E F G H I\n"@
}

/// The displayed form of a board.
pub open spec fn board_display(g: Seq<Seq<Value>>) -> Seq<char> {
    header() + rows_display(g, 9)
}

/// The character sequences that the vectors of `lines` hold.
pub open spec fn views_of(lines: Seq<Vec<char>>) -> Seq<Seq<char>> {
    lines.map_values(|l: Vec<char>| l@)
}

impl BoardError {
    /// The error's message.
    pub fn message(&self) -> (r: String)
        ensures
            r@ == self.text(),
    {
        let mut r = String::new();
        r.append("in Board string on line ");
        match self {
            BoardError::TooManyLines(n) => {
                push_decimal(&mut r, *n);
                r.append(" there are too many lines; must have 9 lines");
            },
            BoardError::TooManyValues(n) => {
                push_decimal(&mut r, *n);
                r.append(" there are too many values");
            },
            BoardError::BadValue(n, e) => {
                push_decimal(&mut r, *n);
                r.append(" value could not be parsed: ");
                let m = e.message();
                r.append(m.as_str());
            },
        }
        r
    }
}

/// Whether `c` is Unicode whitespace.
pub fn char_is_whitespace(c: char) -> (r: bool)
    ensures
        r == is_whitespace(c),
{
    ('\t' <= c && c <= '\r') || c == ' ' || c == '\u{85}' || c == '\u{a0}' || c == '\u{1680}' || (
    '\u{2000}' <= c && c <= '\u{200a}') || c == '\u{2028}' || c == '\u{2029}' || c == '\u{202f}'
        || c == '\u{205f}' || c == '\u{3000}'
}

/// `t` cut at each line feed.
pub fn split_lines(t: &Vec<char>) -> (r: Vec<Vec<char>>)
    ensures
        views_of(r@) == text_lines(t@),
{
    let mut done: Vec<Vec<char>> = Vec::new();
    let mut cur: Vec<char> = Vec::new();
    for i in 0..t.len()
        invariant
            text_lines(t@.take(i as int)) == views_of(done@).push(cur@),
    {
        let c = t[i];
        assert(t@.take(i + 1).drop_last() == t@.take(i as int));
        let ghost before = views_of(done@);
        let ghost line = cur@;
        if c == '\n' {
            done.push(cur);
            cur = Vec::new();
            assert(views_of(done@) =~= before.push(line));
        } else {
            cur.push(c);
        }
    }
    assert(t@.take(t@.len() as int) == t@);
    let ghost before = views_of(done@);
    let ghost line = cur@;
    done.push(cur);
    assert(views_of(done@) =~= before.push(line));
    done
}

/// The words read so far: those completed, then the one being read, if any.
spec fn words_so_far(done: Seq<Seq<char>>, cur: Seq<char>) -> Seq<Seq<char>> {
    if cur.len() > 0 {
        done.push(cur)
    } else {
        done
    }
}

/// The maximal runs of characters of `t` that are not whitespace.
pub fn split_words(t: &Vec<char>) -> (r: Vec<Vec<char>>)
    ensures
        views_of(r@) == words(t@),
{
    let mut done: Vec<Vec<char>> = Vec::new();
    let mut cur: Vec<char> = Vec::new();
    for i in 0..t.len()
        invariant
            words(t@.take(i as int)) == words_so_far(views_of(done@), cur@),
            cur@.len() > 0 ==> i > 0 && !is_whitespace(t@[i - 1]),
            cur@.len() == 0 ==> i == 0 || is_whitespace(t@[i - 1]),
    {
        let c = t[i];
        assert(t@.take(i + 1).drop_last() == t@.take(i as int));
        let ghost before = views_of(done@);
        let ghost word = cur@;
        if char_is_whitespace(c) {
            if cur.len() > 0 {
                done.push(cur);
                cur = Vec::new();
                assert(views_of(done@) =~= before.push(word));
            }
        } else {
            cur.push(c);
            proof {
                if word.len() > 0 {
                    assert(words_so_far(before, cur@) =~= words_so_far(before, word).update(
                        before.len() as int,
                        word.push(c),
                    ));
                } else {
                    assert(cur@ =~= seq![c]);
                }
            }
        }
    }
    assert(t@.take(t@.len() as int) == t@);
    if cur.len() > 0 {
        let ghost before = views_of(done@);
        let ghost word = cur@;
        done.push(cur);
        assert(views_of(done@) =~= before.push(word));
    }
    done
}

proof fn lemma_lines_nonempty(s: Seq<char>)
    ensures
        text_lines(s).len() >= 1,
    decreases s.len(),
{
    if s.len() > 0 {
        lemma_lines_nonempty(s.drop_last());
    }
}

/// Text without a line feed, put after `a`, extends the last line of `a`.
proof fn lemma_lines_append(a: Seq<char>, b: Seq<char>)
    requires
        forall|i: int| 0 <= i < b.len() ==> b[i] != '\n',
    ensures
        text_lines(a + b) == text_lines(a).update(
            text_lines(a).len() - 1,
            text_lines(a).last() + b,
        ),
    decreases b.len(),
{
    lemma_lines_nonempty(a);
    if b.len() == 0 {
        assert(a + b =~= a);
        assert(text_lines(a).last() + b =~= text_lines(a).last());
        assert(text_lines(a).update(text_lines(a).len() - 1, text_lines(a).last())
            =~= text_lines(a));
    } else {
        let b0 = b.drop_last();
        lemma_lines_append(a, b0);
        assert((a + b).drop_last() =~= a + b0);
        assert((a + b).last() == b.last());
        assert(text_lines(a).last() + b =~= (text_lines(a).last() + b0).push(b.last()));
        assert(text_lines(a + b) =~= text_lines(a).update(
            text_lines(a).len() - 1,
            text_lines(a).last() + b,
        ));
    }
}

proof fn lemma_digit_char(d: nat)
    requires
        d <= 9,
    ensures
        is_digit_char(digit_char(d)),
        digit_char(d) as int - '0' as int == d,
{
}

spec fn is_digit_char(c: char) -> bool {
    '0' <= c && c <= '9'
}

proof fn lemma_row_code_chars(row: Seq<Value>, n: int)
    ensures
        forall|i: int|
            0 <= i < row_code_text(row, n).len() ==> #[trigger] row_code_text(row, n)[i] != '\n',
    decreases n,
{
    if n > 1 {
        lemma_row_code_chars(row, n - 1);
        let v = row[n - 1];
        lemma_digit_char(v.code());
        assert forall|i: int| 0 <= i < row_code_text(row, n).len() implies #[trigger] row_code_text(
            row,
            n,
        )[i] != '\n' by {
            if i >= row_code_text(row, n - 1).len() {
            } else {
                assert(row_code_text(row, n)[i] == row_code_text(row, n - 1)[i]);
            }
        }
    } else if n == 1 {
        lemma_digit_char(row[0].code());
    }
}

/// The lines of the first `n` saved rows: one per row, and an empty one
/// after the last line feed.
proof fn lemma_lines_of_rows(g: Seq<Seq<Value>>, n: int)
    requires
        0 <= n <= 9,
    ensures
        text_lines(rows_code_text(g, n)) == Seq::new(n as nat, |r: int| row_code_text(g[r], 9)).push(
            seq![],
        ),
    decreases n,
{
    if n == 0 {
        assert(text_lines(seq![]) =~= seq![seq![]]);
        assert(Seq::new(0, |r: int| row_code_text(g[r], 9)).push(seq![]) =~= seq![seq![]]);
    } else {
        lemma_lines_of_rows(g, n - 1);
        let a = rows_code_text(g, n - 1);
        let b = row_code_text(g[n - 1], 9);
        lemma_row_code_chars(g[n - 1], 9);
        lemma_lines_append(a, b);
        let t = rows_code_text(g, n);
        assert(t == (a + b) + seq!['\n']);
        assert(t.drop_last() =~= a + b);
        assert(text_lines(t) =~= Seq::new(n as nat, |r: int| row_code_text(g[r], 9)).push(seq![]));
    }
}

/// The words of a saved row are the codes of its cells, one character each.
proof fn lemma_words_of_row(row: Seq<Value>, n: int)
    requires
        0 <= n <= 9,
    ensures
        words(row_code_text(row, n)) == Seq::new(
            n as nat,
            |c: int| seq![digit_char(row[c].code())],
        ),
    decreases n,
{
    if n == 0 {
        assert(words(seq![]) =~= Seq::<Seq<char>>::empty());
        assert(Seq::new(0, |c: int| seq![digit_char(row[c].code())]) =~= Seq::<Seq<char>>::empty());
    } else if n == 1 {
        let t = row_code_text(row, 1);
        lemma_digit_char(row[0].code());
        assert(t.drop_last() =~= Seq::<char>::empty());
        assert(words(t.drop_last()) =~= Seq::<Seq<char>>::empty());
        assert(words(t) =~= Seq::new(1, |c: int| seq![digit_char(row[c].code())]));
    } else {
        lemma_words_of_row(row, n - 1);
        let a = row_code_text(row, n - 1);
        let t = row_code_text(row, n);
        let d = digit_char(row[n - 1].code());
        lemma_digit_char(row[n - 1].code());
        assert(t.drop_last() =~= a.push(' '));
        assert(a.push(' ').drop_last() =~= a);
        assert(words(a.push(' ')) == words(a));
        assert(words(t) =~= Seq::new(n as nat, |c: int| seq![digit_char(row[c].code())]));
    }
}

/// The one-character code of a value reads back as that value.
proof fn lemma_value_of_code_text(v: Value)
    ensures
        value_of_text(seq![digit_char(v.code())]) == Ok::<Value, ValueError>(v),
{
    let t = seq![digit_char(v.code())];
    lemma_digit_char(v.code());
    assert(t.drop_last() =~= Seq::<char>::empty());
    assert(fold_digits(t.drop_last()) == Ok::<usize, NumberError>(0));
    assert(digit_value(t.last()) == v.code());
    assert(fold_digits(t) == Ok::<usize, NumberError>(v.code() as usize));
}

/// Reading the saved form of a board gives the board back.
pub proof fn lemma_board_text_round_trip(g: Seq<Seq<Value>>)
    requires
        is_grid(g),
    ensures
        board_of_text(board_text(g)) == Ok::<Seq<Seq<Value>>, BoardError>(g),
{
    let lines = text_lines(board_text(g));
    lemma_lines_of_rows(g, 9);
    assert(lines.len() == 10);
    assert(words(lines[9]) =~= Seq::<Seq<char>>::empty());
    assert forall|r: int| 0 <= r < 9 implies #[trigger] words(lines[r]) == Seq::new(
        9,
        |c: int| seq![digit_char(g[r][c].code())],
    ) by {
        lemma_words_of_row(g[r], 9);
    }
    assert forall|r: int, c: int| 0 <= r < 9 && 0 <= c < 9 implies #[trigger] value_of_text(
        words(lines[r])[c],
    ) == Ok::<Value, ValueError>(g[r][c]) by {
        lemma_value_of_code_text(g[r][c]);
    }
    lemma_no_value_error(g, lines, 0);
    let grid = Seq::new(9, |r: int| Seq::new(9, |c: int| cell_of_text(lines, r, c)));
    assert forall|r: int| 0 <= r < 9 implies #[trigger] grid[r] =~= g[r] by {}
    assert(grid =~= g);
}

proof fn lemma_line_has_no_error(k: int, ws: Seq<Seq<char>>, j: int)
    requires
        0 <= j <= 9,
        ws.len() == 9,
        forall|c: int| 0 <= c < 9 ==> #[trigger] value_of_text(ws[c]) is Ok,
    ensures
        first_value_error(k, ws, j) is None,
    decreases 9 - j,
{
    if j < 9 {
        lemma_line_has_no_error(k, ws, j + 1);
    }
}

proof fn lemma_no_value_error(g: Seq<Seq<Value>>, lines: Seq<Seq<char>>, k: int)
    requires
        0 <= k <= 10,
        lines.len() == 10,
        words(lines[9]).len() == 0,
        forall|r: int| 0 <= r < 9 ==> (#[trigger] words(lines[r])).len() == 9,
        forall|r: int, c: int|
            0 <= r < 9 && 0 <= c < 9 ==> #[trigger] value_of_text(words(lines[r])[c]) == Ok::<
                Value,
                ValueError,
            >(g[r][c]),
    ensures
        first_error(lines, k) is None,
    decreases 10 - k,
{
    if k < 10 {
        lemma_no_value_error(g, lines, k + 1);
        if k < 9 {
            let ws = words(lines[k]);
            assert forall|c: int| 0 <= c < 9 implies #[trigger] value_of_text(ws[c]) is Ok by {
                assert(value_of_text(words(lines[k])[c]) == Ok::<Value, ValueError>(g[k][c]));
            }
            lemma_line_has_no_error(k, ws, 0);
        }
    }
}

} // verus!
