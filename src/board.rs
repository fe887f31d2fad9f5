use vstd::prelude::*;

use crate::grid_text::{
    board_display, board_of_text, board_text, cell_of_text, first_error, first_value_error,
    header, lemma_board_text_round_trip, line_error, row_code_text, row_display, rows_code_text,
    rows_display, split_lines, split_words, text_lines, views_of, words, BoardError,
};
use crate::index::{Index, SubBox};
use crate::text::{chars_of, digit_char, digit_to_char, push_char};
use crate::value::Value;

verus! {

/// Whether `g` has nine rows of nine cells each.
pub open spec fn is_grid(g: Seq<Seq<Value>>) -> bool {
    g.len() == 9 && forall|r: int| 0 <= r < 9 ==> (#[trigger] g[r]).len() == 9
}

/// The cell of `g` at position `p`.
pub open spec fn cell(g: Seq<Seq<Value>>, p: (int, int)) -> Value {
    g[p.0][p.1]
}

/// The row of `g` that holds `p`, from left to right.
pub open spec fn row_values(g: Seq<Seq<Value>>, p: (int, int)) -> Seq<Value> {
    Seq::new(9, |c: int| g[p.0][c])
}

/// The column of `g` that holds `p`, from top to bottom.
pub open spec fn column_values(g: Seq<Seq<Value>>, p: (int, int)) -> Seq<Value> {
    Seq::new(9, |r: int| g[r][p.1])
}

/// The 3x3 block of `g` that holds `p`, in the order of `SubBox::members`.
pub open spec fn box_values(g: Seq<Seq<Value>>, p: (int, int)) -> Seq<Value> {
    SubBox::containing(p).members().map_values(|q: (int, int)| cell(g, q))
}

/// Whether `v` already stands in the row, the column or the block of `p`.
pub open spec fn eliminated(g: Seq<Seq<Value>>, p: (int, int), v: Value) -> bool {
    row_values(g, p).contains(v) || column_values(g, p).contains(v) || box_values(g, p).contains(
        v,
    )
}

/// The digits from 1 to `n` that are not eliminated at `p`, in ascending order.
pub open spec fn candidates_up_to(g: Seq<Seq<Value>>, p: (int, int), n: int) -> Seq<Value>
    decreases n,
{
    if n <= 0 {
        seq![]
    } else {
        let prev = candidates_up_to(g, p, n - 1);
        if eliminated(g, p, Value::of_code(n)) {
            prev
        } else {
            prev.push(Value::of_code(n))
        }
    }
}

/// The values that may be written at `p`: none when the cell is filled, else
/// every digit that is in neither its row, its column nor its block, in
/// ascending order.
pub open spec fn candidates(g: Seq<Seq<Value>>, p: (int, int)) -> Seq<Value> {
    if cell(g, p) is Empty {
        candidates_up_to(g, p, 9)
    } else {
        seq![]
    }
}

/// A 9x9 Sudoku board, stored row by row.
#[derive(Debug, Clone, Copy, PartialEq, Eq, PartialOrd, Ord)]
pub struct Board {
    values: [[Value; 9]; 9],
}

impl View for Board {
    /// The rows, from top to bottom, each a sequence of its cells from left to right.
    type V = Seq<Seq<Value>>;

    closed spec fn view(&self) -> Seq<Seq<Value>> {
        self.values@.map_values(|row: [Value; 9]| row@)
    }
}

impl Board {
    /// Every board has nine rows of nine cells.
    pub proof fn lemma_grid(self)
        ensures
            is_grid(self@),
    {
    }

    /// A board whose cells are all empty.
    pub fn new() -> (r: Board)
        ensures
            is_grid(r@),
            forall|i: int, j: int| 0 <= i < 9 && 0 <= j < 9 ==> #[trigger] r@[i][j] is Empty,
    {
        let row: [Value; 9] = [Value::Empty; 9];
        let r = Board { values: [row; 9] };
        assert forall|i: int, j: int| 0 <= i < 9 && 0 <= j < 9 implies #[trigger] r@[i][j] is Empty by {
            assert(row == vstd::array::spec_array_fill_for_copy_type::<Value, 9>(Value::Empty));
            assert(r.values == vstd::array::spec_array_fill_for_copy_type::<[Value; 9], 9>(row));
        }
        r
    }

    /// The value at `index`.
    pub fn get(&self, index: Index) -> (r: &Value)
        ensures
            *r == cell(self@, index@),
    {
        &self.values[index.row()][index.column()]
    }

    /// Writes `value` at `index` and leaves every other cell as it was.
    pub fn set(&mut self, index: Index, value: Value)
        ensures
            final(self)@ == old(self)@.update(index@.0, old(self)@[index@.0].update(index@.1, value)),
    {
        let r = index.row();
        let c = index.column();
        let mut row = self.values[r];
        row[c] = value;
        self.values[r] = row;
        assert(self@ =~= old(self)@.update(index@.0, old(self)@[index@.0].update(index@.1, value)));
    }

    /// The row that holds `index`, from left to right.
    pub fn row(&self, index: Index) -> (r: Vec<Value>)
        ensures
            r@ == row_values(self@, index@),
    {
        let i = index.row();
        let mut r: Vec<Value> = Vec::new();
        for c in 0..9usize
            invariant
                i as int == index@.0,
                i < 9,
                r@ == row_values(self@, index@).take(c as int),
        {
            assert(row_values(self@, index@).take(c + 1) == r@.push(self@[i as int][c as int]));
            r.push(self.values[i][c]);
        }
        assert(row_values(self@, index@).take(9) == row_values(self@, index@));
        r
    }

    /// The column that holds `index`, from top to bottom.
    pub fn column(&self, index: Index) -> (r: Vec<Value>)
        ensures
            r@ == column_values(self@, index@),
    {
        let j = index.column();
        let mut r: Vec<Value> = Vec::new();
        for k in 0..9usize
            invariant
                j as int == index@.1,
                j < 9,
                r@ == column_values(self@, index@).take(k as int),
        {
            assert(column_values(self@, index@).take(k + 1) == r@.push(self@[k as int][j as int]));
            r.push(self.values[k][j]);
        }
        assert(column_values(self@, index@).take(9) == column_values(self@, index@));
        r
    }

    /// The 3x3 block that holds `index`, row by row.
    pub fn sub_box(&self, index: Index) -> (r: Vec<Value>)
        ensures
            r@ == box_values(self@, index@),
    {
        let indexes = SubBox::containing_index(index).all_indexes();
        let ghost members = SubBox::containing(index@).members();
        let mut r: Vec<Value> = Vec::new();
        for k in 0..9usize
            invariant
                indexes@.len() == 9,
                members == SubBox::containing(index@).members(),
                forall|j: int| 0 <= j < 9 ==> #[trigger] indexes@[j]@ == members[j],
                r@ == box_values(self@, index@).take(k as int),
        {
            let v = self.get(indexes[k]);
            assert(box_values(self@, index@).take(k + 1) == r@.push(*v));
            r.push(*v);
        }
        assert(box_values(self@, index@).take(9) == box_values(self@, index@));
        r
    }

    /// The saved form: nine lines, each with the codes of its nine cells
    /// (0 for an empty cell) separated by single spaces and ended by a line feed.
    pub fn serialize(&self) -> (r: String)
        ensures
            r@ == board_text(self@),
    {
        let mut r = String::new();
        for i in 0..9usize
            invariant
                r@ == rows_code_text(self@, i as int),
        {
            let ghost start = r@;
            for j in 0..9usize
                invariant
                    i < 9,
                    start == rows_code_text(self@, i as int),
                    r@ == start + row_code_text(self@[i as int], j as int),
            {
                let ghost before = r@;
                if j > 0 {
                    push_char(&mut r, ' ');
                }
                let d = digit_to_char(self.values[i][j].to_usize());
                push_char(&mut r, d);
                assert(r@ =~= start + row_code_text(self@[i as int], j + 1));
            }
            push_char(&mut r, '\n');
            assert(r@ =~= rows_code_text(self@, i + 1));
        }
        r
    }

    /// The displayed form: a header of column letters, then each row with its
    /// number, bars after the third and sixth column, and a line of dashes
    /// after the third and sixth row.
    pub fn display(&self) -> (r: String)
        ensures
            r@ == board_display(self@),
    {
        let mut r = String::new();
        r.append("  A B C D E F G H I\n");
        assert(r@ == header() + rows_display(self@, 0));
        for i in 0..9usize
            invariant
                r@ == header() + rows_display(self@, i as int),
        {
            let ghost start = r@;
            push_char(&mut r, digit_to_char(i + 1));
            push_char(&mut r, ' ');
            for j in 0..9usize
                invariant
                    i < 9,
                    r@ == start + seq![digit_char((i + 1) as nat), ' '] + row_display(
                        self@[i as int],
                        j as int,
                    ),
            {
                push_char(&mut r, self.values[i][j].to_char());
                if j % 3 == 2 && j != 8 {
                    push_char(&mut r, '|');
                } else {
                    push_char(&mut r, ' ');
                }
                assert(r@ =~= start + seq![digit_char((i + 1) as nat), ' ']
                    + row_display(self@[i as int], j + 1));
            }
            if i % 3 == 2 && i != 8 {
                r.append("\n  -----+-----+-----");
            }
            push_char(&mut r, '\n');
            assert(r@ =~= header() + rows_display(self@, i + 1));
        }
        r
    }

    fn set_cell(&mut self, r: usize, c: usize, value: Value)
        requires
            r < 9,
            c < 9,
        ensures
            final(self)@ == old(self)@.update(r as int, old(self)@[r as int].update(c as int, value)),
    {
        let mut row = self.values[r];
        row[c] = value;
        self.values[r] = row;
        assert(self@ =~= old(self)@.update(r as int, old(self)@[r as int].update(c as int, value)));
    }

    /// Reads a board from its saved form. Values are separated by any
    /// whitespace; missing lines and missing values are empty cells. A tenth
    /// line that holds a value, a tenth value on a line, or a value that cannot
    /// be read is an error, which names the line.
    pub fn deserialize(s: &str) -> (r: Result<Board, BoardError>)
        ensures
            match r {
                Ok(b) => board_of_text(s@) == Ok::<Seq<Seq<Value>>, BoardError>(b@),
                Err(e) => board_of_text(s@) == Err::<Seq<Seq<Value>>, BoardError>(e),
            },
    {
        let t = chars_of(s);
        let lines = split_lines(&t);
        let ghost ls = text_lines(s@);
        let mut board = Board::new();
        for k in 0..lines.len()
            invariant
                views_of(lines@) == ls,
                ls == text_lines(s@),
                first_error(ls, 0) == first_error(ls, k as int),
                forall|r: int, c: int|
                    0 <= r < 9 && 0 <= c < 9 ==> #[trigger] board@[r][c] == if r < k {
                        cell_of_text(ls, r, c)
                    } else {
                        Value::Empty
                    },
        {
            let w = split_words(&lines[k]);
            assert(lines@[k as int]@ == ls[k as int]);
            let ghost ws = words(ls[k as int]);
            if k >= 9 {
                if w.len() > 0 {
                    return Err(BoardError::TooManyLines(k + 1));
                }
            } else {
                for j in 0..w.len()
                    invariant
                        k < 9,
                        k < ls.len(),
                        ls == text_lines(s@),
                        first_error(ls, 0) == first_error(ls, k as int),
                        views_of(w@) == ws,
                        ws == words(ls[k as int]),
                        first_value_error(k as int, ws, 0) == first_value_error(
                            k as int,
                            ws,
                            j as int,
                        ),
                        forall|r: int, c: int|
                            0 <= r < 9 && 0 <= c < 9 ==> #[trigger] board@[r][c] == if r < k || (
                            r == k && c < j) {
                                cell_of_text(ls, r, c)
                            } else {
                                Value::Empty
                            },
                {
                    assert(w@[j as int]@ == ws[j as int]);
                    if j >= 9 {
                        assert(line_error(k as int, ws) == Some(BoardError::TooManyValues(
                            (k + 1) as usize,
                        )));
                        assert(first_error(ls, k as int) == Some(BoardError::TooManyValues(
                            (k + 1) as usize,
                        )));
                        return Err(BoardError::TooManyValues(k + 1));
                    }
                    match Value::parse_chars(&w[j]) {
                        Err(e) => {
                            assert(line_error(k as int, ws) == Some(
                                BoardError::BadValue((k + 1) as usize, e),
                            ));
                            assert(first_error(ls, k as int) == Some(
                                BoardError::BadValue((k + 1) as usize, e),
                            ));
                            return Err(BoardError::BadValue(k + 1, e));
                        },
                        Ok(v) => {
                            board.set_cell(k, j, v);
                        },
                    }
                }
                assert(line_error(k as int, ws) is None);
            }
            assert(first_error(ls, k as int) == first_error(ls, k + 1));
        }
        let ghost g = Seq::new(9, |r: int| Seq::new(9, |c: int| cell_of_text(ls, r, c)));
        assert forall|r: int| 0 <= r < 9 implies #[trigger] board@[r] =~= g[r] by {
            assert(board@[r].len() == 9);
        }
        assert(board@ =~= g);
        Ok(board)
    }

    /// A mutable reference to the value at `index`; the other cells keep their values.
    pub fn get_mut(&mut self, index: Index) -> (r: &mut Value)
        ensures
            *r == cell(old(self)@, index@),
            final(self)@ == old(self)@.update(
                index@.0,
                old(self)@[index@.0].update(index@.1, *final(r)),
            ),
    {
        let i = index.row();
        let j = index.column();
        &mut self.values[i][j]
    }

    /// The values that may be written at `index`: nothing when the cell is
    /// filled, else each digit that its row, its column and its block lack,
    /// in ascending order.
    pub fn possible_values(&self, index: Index) -> (r: Vec<Value>)
        ensures
            r@ == candidates(self@, index@),
            !(cell(self@, index@) is Empty) ==> r@.len() == 0,
    {
        let is_empty = self.get(index).is_empty();
        let mut allowed: Vec<bool> = Vec::new();
        for k in 0..10usize
            invariant
                allowed@.len() == k,
                forall|d: int| 0 <= d < k ==> #[trigger] allowed@[d],
        {
            allowed.push(true);
        }
        let row = self.row(index);
        let column = self.column(index);
        let block = self.sub_box(index);
        mark_seen(&mut allowed, &row);
        mark_seen(&mut allowed, &column);
        mark_seen(&mut allowed, &block);
        let mut r: Vec<Value> = Vec::new();
        if is_empty {
            for d in 1..10usize
                invariant
                    allowed@.len() == 10,
                    forall|e: int|
                        0 <= e < 10 ==> #[trigger] allowed@[e] == !eliminated(
                            self@,
                            index@,
                            Value::of_code(e),
                        ),
                    r@ == candidates_up_to(self@, index@, d - 1),
            {
                if allowed[d] {
                    r.push(Value::from_usize(d));
                }
            }
        }
        r
    }
}

/// Clears `allowed[d]` for the code `d` of each value in `values`.
fn mark_seen(allowed: &mut Vec<bool>, values: &Vec<Value>)
    requires
        old(allowed)@.len() == 10,
    ensures
        final(allowed)@.len() == 10,
        forall|d: int|
            0 <= d < 10 ==> #[trigger] final(allowed)@[d] == (old(allowed)@[d]
                && !values@.contains(Value::of_code(d))),
{
    for k in 0..values.len()
        invariant
            allowed@.len() == 10,
            forall|d: int|
                0 <= d < 10 ==> #[trigger] allowed@[d] == (old(allowed)@[d] && !(exists|j: int|
                    0 <= j < k && values@[j] == Value::of_code(d))),
    {
        let code = values[k].to_usize();
        allowed.set(code, false);
    }
}

proof fn lemma_candidates_up_to(g: Seq<Seq<Value>>, p: (int, int), n: int, v: Value)
    requires
        0 <= n <= 9,
    ensures
        candidates_up_to(g, p, n).contains(v) <==> (1 <= v.code() <= n && !eliminated(g, p, v)),
        forall|i: int, j: int|
            0 <= i < j < candidates_up_to(g, p, n).len() ==> (#[trigger] candidates_up_to(
                g,
                p,
                n,
            )[i]).code() < (#[trigger] candidates_up_to(g, p, n)[j]).code(),
        forall|i: int|
            0 <= i < candidates_up_to(g, p, n).len() ==> 1 <= (#[trigger] candidates_up_to(
                g,
                p,
                n,
            )[i]).code() <= n,
    decreases n,
{
    if n > 0 {
        lemma_candidates_up_to(g, p, n - 1, v);
        let prev = candidates_up_to(g, p, n - 1);
        let cur = candidates_up_to(g, p, n);
        assert(Value::of_code(v.code() as int) == v);
        if !eliminated(g, p, Value::of_code(n)) {
            assert(cur == prev.push(Value::of_code(n)));
            if v == Value::of_code(n) {
                assert(cur[prev.len() as int] == v);
            }
            if cur.contains(v) && v != Value::of_code(n) {
                let k = choose|k: int| 0 <= k < cur.len() && cur[k] == v;
                assert(prev[k] == v);
            }
            if prev.contains(v) {
                let k = choose|k: int| 0 <= k < prev.len() && prev[k] == v;
                assert(cur[k] == v);
            }
        }
    }
}

/// At an empty cell the candidates are exactly the digits that stand in
/// neither its row, its column nor its block, each once, in ascending order.
pub proof fn lemma_candidates_exact(g: Seq<Seq<Value>>, p: (int, int), v: Value)
    requires
        cell(g, p) is Empty,
    ensures
        candidates(g, p).contains(v) <==> (!(v is Empty) && !eliminated(g, p, v)),
        forall|i: int, j: int|
            0 <= i < j < candidates(g, p).len() ==> (#[trigger] candidates(g, p)[i]).code() < (
            #[trigger] candidates(g, p)[j]).code(),
{
    lemma_candidates_up_to(g, p, 9, v);
}

/// At a filled cell there are no candidates.
pub proof fn lemma_no_candidates_when_filled(g: Seq<Seq<Value>>, p: (int, int))
    requires
        !(cell(g, p) is Empty),
    ensures
        candidates(g, p).len() == 0,
{
}

impl Default for Board {
    /// A board whose cells are all empty.
    fn default() -> (r: Board)
        ensures
            is_grid(r@),
            forall|i: int, j: int| 0 <= i < 9 && 0 <= j < 9 ==> #[trigger] r@[i][j] is Empty,
    {
        Board::new()
    }
}

/// Reading back the saved form of a board gives a board with the same cells.
pub proof fn lemma_serialize_round_trip(b: Board)
    ensures
        board_of_text(board_text(b@)) == Ok::<Seq<Seq<Value>>, BoardError>(b@),
{
    b.lemma_grid();
    lemma_board_text_round_trip(b@);
}

} // verus!
