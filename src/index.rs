use vstd::prelude::*;

use crate::text::{chars_of, digit_char, push_char};

verus! {

/// A position on the board: a row and a column, each in `0..=8`.
#[derive(Debug, Clone, Copy, PartialEq, Eq, Structural)]
pub struct Index {
    row: usize,
    column: usize,
}

impl View for Index {
    /// The pair (row, column).
    type V = (int, int);

    closed spec fn view(&self) -> (int, int) {
        (self.row as int, self.column as int)
    }
}

/// Whether `p` is a position on the board.
pub open spec fn in_bounds(p: (int, int)) -> bool {
    0 <= p.0 < 9 && 0 <= p.1 < 9
}

/// The letter of column `c`: `A` for 0 up to `I` for 8.
pub open spec fn column_letter(c: int) -> char {
    ((c + 65) as u8) as char
}

/// The text form of a position: its column letter, then its row number from 1.
pub open spec fn index_text(p: (int, int)) -> Seq<char> {
    seq![column_letter(p.1), digit_char((p.0 + 1) as nat)]
}

/// `c` with an ASCII lower-case letter turned into upper case.
pub open spec fn ascii_upper(c: char) -> char {
    if 'a' <= c && c <= 'z' {
        ((c as int - 32) as u8) as char
    } else {
        c
    }
}

/// Why a piece of text does not name a position.
#[derive(Debug, Clone, Copy, PartialEq, Eq, Structural)]
pub enum IndexError {
    /// More than two characters.
    TooManyCharacters,
    /// No characters at all.
    EmptyInput,
    /// The first character, in upper case, is not a letter from `A` to `I`.
    InvalidColumn(char),
    /// The second character is not a digit from `1` to `9`.
    InvalidRow(char),
    /// A column letter and nothing after it.
    TooFewCharacters,
}

/// Reading of a position from text, case-insensitive: a column letter `A` to
/// `I`, then a row digit `1` to `9`.
pub open spec fn index_of_text(s: Seq<char>) -> Result<(int, int), IndexError> {
    if s.len() > 2 {
        Err(IndexError::TooManyCharacters)
    } else if s.len() == 0 {
        Err(IndexError::EmptyInput)
    } else if !('A' <= ascii_upper(s[0]) && ascii_upper(s[0]) <= 'I') {
        Err(IndexError::InvalidColumn(ascii_upper(s[0])))
    } else if s.len() == 1 {
        Err(IndexError::TooFewCharacters)
    } else if !('1' <= s[1] && s[1] <= '9') {
        Err(IndexError::InvalidRow(ascii_upper(s[1])))
    } else {
        Ok((s[1] as int - '1' as int, ascii_upper(s[0]) as int - 'A' as int))
    }
}

impl IndexError {
    pub open spec fn text(self) -> Seq<char> {
        match self {
            IndexError::TooManyCharacters => "too many characters to identify a Square"@,
            IndexError::EmptyInput => "empty input"@,
            IndexError::InvalidColumn(c) => seq![c] + " does not identify a valid column"@,
            IndexError::InvalidRow(c) => seq![c] + " does not identify a valid row"@,
            IndexError::TooFewCharacters => "too few characters to identify a Square"@,
        }
    }

    /// The error's message.
    pub fn message(&self) -> (r: String)
        ensures
            r@ == self.text(),
    {
        let mut r = String::new();
        match self {
            IndexError::TooManyCharacters => r.append("too many characters to identify a Square"),
            IndexError::EmptyInput => r.append("empty input"),
            IndexError::InvalidColumn(c) => {
                push_char(&mut r, *c);
                r.append(" does not identify a valid column");
            },
            IndexError::InvalidRow(c) => {
                push_char(&mut r, *c);
                r.append(" does not identify a valid row");
            },
            IndexError::TooFewCharacters => r.append("too few characters to identify a Square"),
        }
        r
    }
}

pub(crate) fn to_ascii_upper(c: char) -> (r: char)
    ensures
        r == ascii_upper(c),
{
    if 'a' <= c && c <= 'z' {
        ((c as u32 - 32) as u8) as char
    } else {
        c
    }
}

impl Index {
    #[verifier::type_invariant]
    spec fn inv(self) -> bool {
        self.row < 9 && self.column < 9
    }

    /// A position from a row and a column; `None` when either is 9 or more.
    pub fn new(row: usize, column: usize) -> (r: Option<Index>)
        ensures
            r is Some <==> (row < 9 && column < 9),
            r matches Some(i) ==> i@ == (row as int, column as int),
    {
        if row < 9 && column < 9 {
            Some(Index { row, column })
        } else {
            None
        }
    }

    /// The row, from 0 at the top.
    pub fn row(&self) -> (r: usize)
        ensures
            r as int == self@.0,
            r < 9,
    {
        proof { use_type_invariant(self); }
        self.row
    }

    /// The column, from 0 at the left.
    pub fn column(&self) -> (r: usize)
        ensures
            r as int == self@.1,
            r < 9,
    {
        proof { use_type_invariant(self); }
        self.column
    }

    /// The text form, such as `D3` for row 2 and column 3.
    pub fn display(&self) -> (r: String)
        ensures
            r@ == index_text(self@),
    {
        proof { use_type_invariant(self); }
        let mut r = String::new();
        push_char(&mut r, (self.column as u8 + 65) as char);
        push_char(&mut r, (self.row as u8 + 49) as char);
        r
    }

    /// Reads a position from its text form, in either case.
    pub fn parse(s: &str) -> (r: Result<Index, IndexError>)
        ensures
            match r {
                Ok(i) => index_of_text(s@) == Ok::<(int, int), IndexError>(i@),
                Err(e) => index_of_text(s@) == Err::<(int, int), IndexError>(e),
            },
    {
        let t = chars_of(s);
        if t.len() > 2 {
            return Err(IndexError::TooManyCharacters);
        }
        if t.len() == 0 {
            return Err(IndexError::EmptyInput);
        }
        let c0 = to_ascii_upper(t[0]);
        if !('A' <= c0 && c0 <= 'I') {
            return Err(IndexError::InvalidColumn(c0));
        }
        if t.len() == 1 {
            return Err(IndexError::TooFewCharacters);
        }
        let c1 = t[1];
        if !('1' <= c1 && c1 <= '9') {
            return Err(IndexError::InvalidRow(to_ascii_upper(c1)));
        }
        Ok(Index { row: (c1 as u32 - '1' as u32) as usize, column: (c0 as u32 - 'A' as u32) as usize })
    }
}

/// Reading the text form of any position on the board gives that position back.
pub proof fn lemma_text_round_trip(p: (int, int))
    requires
        in_bounds(p),
    ensures
        index_of_text(index_text(p)) == Ok::<(int, int), IndexError>(p),
{
}

/// Text that names a position is, once written back, its first character in
/// upper case followed by its second.
pub proof fn lemma_text_canonical(s: Seq<char>)
    requires
        index_of_text(s) is Ok,
    ensures
        in_bounds(index_of_text(s)->Ok_0),
        index_text(index_of_text(s)->Ok_0) == seq![ascii_upper(s[0]), s[1]],
{
    assert(index_text(index_of_text(s)->Ok_0) =~= seq![ascii_upper(s[0]), s[1]]);
}

/// Every pair of an element of `outer` and an element of `inner`, in the order
/// of a nested loop with `outer` outside.
fn cartesian_product(outer: [usize; 3], inner: [usize; 3]) -> (r: Vec<(usize, usize)>)
    ensures
        r@.len() == 9,
        forall|k: int| 0 <= k < 9 ==> #[trigger] r@[k] == (outer[k / 3], inner[k % 3]),
{
    let mut r: Vec<(usize, usize)> = Vec::new();
    for a in 0..3usize
        invariant
            r@.len() == 3 * a,
            forall|k: int| 0 <= k < 3 * a ==> #[trigger] r@[k] == (outer[k / 3], inner[k % 3]),
    {
        for b in 0..3usize
            invariant
                a < 3,
                r@.len() == 3 * a + b,
                forall|k: int| 0 <= k < 3 * a + b ==> #[trigger] r@[k] == (outer[k / 3], inner[k % 3]),
        {
            r.push((outer[a], inner[b]));
        }
    }
    r
}

/// One of the nine 3x3 blocks that tile the board.
#[derive(Debug, Clone, Copy, PartialEq, Eq, Structural)]
pub enum SubBox {
    TopLeft,
    TopMiddle,
    TopRight,
    MiddleLeft,
    Center,
    MiddleRight,
    BottomLeft,
    BottomMiddle,
    BottomRight,
}

impl SubBox {
    /// The block's band of rows and band of columns, each from 0 to 2.
    pub open spec fn bands(self) -> (int, int) {
        match self {
            SubBox::TopLeft => (0, 0),
            SubBox::TopMiddle => (0, 1),
            SubBox::TopRight => (0, 2),
            SubBox::MiddleLeft => (1, 0),
            SubBox::Center => (1, 1),
            SubBox::MiddleRight => (1, 2),
            SubBox::BottomLeft => (2, 0),
            SubBox::BottomMiddle => (2, 1),
            SubBox::BottomRight => (2, 2),
        }
    }

    /// The block that holds position `p`: its row and its column divided by 3.
    pub open spec fn containing(p: (int, int)) -> SubBox {
        let r = p.0 / 3;
        let c = p.1 / 3;
        if r == 0 {
            if c == 0 {
                SubBox::TopLeft
            } else if c == 1 {
                SubBox::TopMiddle
            } else {
                SubBox::TopRight
            }
        } else if r == 1 {
            if c == 0 {
                SubBox::MiddleLeft
            } else if c == 1 {
                SubBox::Center
            } else {
                SubBox::MiddleRight
            }
        } else {
            if c == 0 {
                SubBox::BottomLeft
            } else if c == 1 {
                SubBox::BottomMiddle
            } else {
                SubBox::BottomRight
            }
        }
    }

    /// The nine positions of the block, row by row, each row from left to right.
    pub open spec fn members(self) -> Seq<(int, int)> {
        Seq::new(9, |k: int| (3 * self.bands().0 + k / 3, 3 * self.bands().1 + k % 3))
    }

    /// The block that holds `index`.
    pub fn containing_index(index: Index) -> (r: SubBox)
        ensures
            r == SubBox::containing(index@),
    {
        let row = index.row();
        let column = index.column();
        if row <= 2 {
            if column <= 2 {
                SubBox::TopLeft
            } else if column <= 5 {
                SubBox::TopMiddle
            } else {
                SubBox::TopRight
            }
        } else if row <= 5 {
            if column <= 2 {
                SubBox::MiddleLeft
            } else if column <= 5 {
                SubBox::Center
            } else {
                SubBox::MiddleRight
            }
        } else {
            if column <= 2 {
                SubBox::BottomLeft
            } else if column <= 5 {
                SubBox::BottomMiddle
            } else {
                SubBox::BottomRight
            }
        }
    }

    /// The block's positions, in the order of `members`.
    pub fn all_indexes(&self) -> (r: Vec<Index>)
        ensures
            r@.len() == 9,
            forall|k: int| 0 <= k < 9 ==> #[trigger] r@[k]@ == self.members()[k],
    {
        let pairs = match self {
            SubBox::TopLeft => cartesian_product([0, 1, 2], [0, 1, 2]),
            SubBox::TopMiddle => cartesian_product([0, 1, 2], [3, 4, 5]),
            SubBox::TopRight => cartesian_product([0, 1, 2], [6, 7, 8]),
            SubBox::MiddleLeft => cartesian_product([3, 4, 5], [0, 1, 2]),
            SubBox::Center => cartesian_product([3, 4, 5], [3, 4, 5]),
            SubBox::MiddleRight => cartesian_product([3, 4, 5], [6, 7, 8]),
            SubBox::BottomLeft => cartesian_product([6, 7, 8], [0, 1, 2]),
            SubBox::BottomMiddle => cartesian_product([6, 7, 8], [3, 4, 5]),
            SubBox::BottomRight => cartesian_product([6, 7, 8], [6, 7, 8]),
        };
        let mut r: Vec<Index> = Vec::new();
        for k in 0..9usize
            invariant
                pairs@.len() == 9,
                forall|j: int| 0 <= j < 9 ==> #[trigger] pairs@[j] == (
                    (3 * self.bands().0 + j / 3) as usize,
                    (3 * self.bands().1 + j % 3) as usize,
                ),
                r@.len() == k,
                forall|j: int| 0 <= j < k ==> #[trigger] r@[j]@ == self.members()[j],
        {
            let (row, column) = pairs[k];
            r.push(Index { row, column });
        }
        r
    }
}

impl From<Index> for SubBox {
    fn from(index: Index) -> (r: SubBox) {
        SubBox::containing_index(index)
    }
}

impl vstd::std_specs::convert::FromSpecImpl<Index> for SubBox {
    open spec fn obeys_from_spec() -> bool {
        true
    }

    open spec fn from_spec(index: Index) -> SubBox {
        SubBox::containing(index@)
    }
}

/// A position on the board lies in a block exactly when that block is the
/// one `containing` names: the nine blocks share no position and leave none out.
pub proof fn lemma_sub_boxes_partition(p: (int, int), b: SubBox)
    requires
        in_bounds(p),
    ensures
        b.members().contains(p) <==> b == SubBox::containing(p),
{
    if b == SubBox::containing(p) {
        let k = 3 * (p.0 % 3) + p.1 % 3;
        assert(b.members()[k] == p);
    }
    if b.members().contains(p) {
        let k = choose|k: int| 0 <= k < 9 && b.members()[k] == p;
        assert(b.members()[k] == p);
    }
}

/// Each block has nine distinct positions, all on the board.
pub proof fn lemma_members(b: SubBox)
    ensures
        b.members().len() == 9,
        b.members().no_duplicates(),
        forall|k: int| 0 <= k < 9 ==> in_bounds(#[trigger] b.members()[k]),
{
}

} // verus!
