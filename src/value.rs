use vstd::prelude::*;

use crate::text::{
    chars_of, decimal_text, digit_char, parse_number, parse_usize, push_decimal, NumberError,
};

verus! {

/// The content of one cell of a Sudoku board: empty, or a digit from one to nine.
#[derive(Debug, Clone, Copy, PartialEq, Eq, Structural, PartialOrd, Ord)]
pub enum Value {
    Empty,
    One,
    Two,
    Three,
    Four,
    Five,
    Six,
    Seven,
    Eight,
    Nine,
}

impl Value {
    /// The integer code of a value: 0 for `Empty`, the digit otherwise.
    pub open spec fn code(self) -> nat {
        match self {
            Value::Empty => 0,
            Value::One => 1,
            Value::Two => 2,
            Value::Three => 3,
            Value::Four => 4,
            Value::Five => 5,
            Value::Six => 6,
            Value::Seven => 7,
            Value::Eight => 8,
            Value::Nine => 9,
        }
    }

    /// The value whose code is `n`; any `n` outside `0..=9` gives `Empty`.
    pub open spec fn of_code(n: int) -> Value {
        if n == 1 {
            Value::One
        } else if n == 2 {
            Value::Two
        } else if n == 3 {
            Value::Three
        } else if n == 4 {
            Value::Four
        } else if n == 5 {
            Value::Five
        } else if n == 6 {
            Value::Six
        } else if n == 7 {
            Value::Seven
        } else if n == 8 {
            Value::Eight
        } else if n == 9 {
            Value::Nine
        } else {
            Value::Empty
        }
    }

    /// The character a value is displayed as: a space for `Empty`, the digit otherwise.
    pub open spec fn display_char(self) -> char {
        if self is Empty {
            ' '
        } else {
            digit_char(self.code())
        }
    }

    pub fn is_empty(&self) -> (r: bool)
        ensures
            r == (*self is Empty),
    {
        match self {
            Value::Empty => true,
            _ => false,
        }
    }

    /// Lenient conversion from an integer: codes 1 to 9 give the digit, anything else `Empty`.
    pub fn from_usize(n: usize) -> (r: Value)
        ensures
            r == Value::of_code(n as int),
    {
        match n {
            1 => Value::One,
            2 => Value::Two,
            3 => Value::Three,
            4 => Value::Four,
            5 => Value::Five,
            6 => Value::Six,
            7 => Value::Seven,
            8 => Value::Eight,
            9 => Value::Nine,
            _ => Value::Empty,
        }
    }

    /// The integer code of this value.
    pub fn to_usize(&self) -> (r: usize)
        ensures
            r as nat == self.code(),
    {
        match self {
            Value::Empty => 0,
            Value::One => 1,
            Value::Two => 2,
            Value::Three => 3,
            Value::Four => 4,
            Value::Five => 5,
            Value::Six => 6,
            Value::Seven => 7,
            Value::Eight => 8,
            Value::Nine => 9,
        }
    }

    /// The display character of this value.
    pub fn to_char(&self) -> (r: char)
        ensures
            r == self.display_char(),
    {
        match self {
            Value::Empty => ' ',
            Value::One => '1',
            Value::Two => '2',
            Value::Three => '3',
            Value::Four => '4',
            Value::Five => '5',
            Value::Six => '6',
            Value::Seven => '7',
            Value::Eight => '8',
            Value::Nine => '9',
        }
    }
}

/// Why a piece of text is not a cell value.
#[derive(Debug, Clone, Copy, PartialEq, Eq, Structural)]
pub enum ValueError {
    /// The text is not an unsigned decimal integer.
    Number(NumberError),
    /// The text is a number above nine.
    TooLarge(usize),
}

impl ValueError {
    pub open spec fn text(self) -> Seq<char> {
        match self {
            ValueError::Number(e) => e.text(),
            ValueError::TooLarge(n) => "value too large: "@ + decimal_text(n as nat),
        }
    }

    /// The error's message.
    pub fn message(&self) -> (r: String)
        ensures
            r@ == self.text(),
    {
        match self {
            ValueError::Number(e) => e.message(),
            ValueError::TooLarge(n) => {
                let mut r = String::new();
                r.append("value too large: ");
                push_decimal(&mut r, *n);
                r
            },
        }
    }
}

/// Strict reading of a cell value: a decimal integer from 0 (`Empty`) to 9.
pub open spec fn value_of_text(t: Seq<char>) -> Result<Value, ValueError> {
    match parse_number(t) {
        Err(e) => Err(ValueError::Number(e)),
        Ok(n) => if n <= 9 {
            Ok(Value::of_code(n as int))
        } else {
            Err(ValueError::TooLarge(n))
        },
    }
}

impl Value {
    /// Reads a cell value from text: `0` is `Empty`, `1` to `9` the digits.
    pub fn parse(s: &str) -> (r: Result<Value, ValueError>)
        ensures
            r == value_of_text(s@),
    {
        let t = chars_of(s);
        Value::parse_chars(&t)
    }

    /// Reads a cell value from a sequence of characters, as `parse` does.
    pub fn parse_chars(t: &Vec<char>) -> (r: Result<Value, ValueError>)
        ensures
            r == value_of_text(t@),
    {
        match parse_usize(t) {
            Err(e) => Err(ValueError::Number(e)),
            Ok(n) => if n <= 9 {
                Ok(Value::from_usize(n))
            } else {
                Err(ValueError::TooLarge(n))
            },
        }
    }
}

impl Default for Value {
    fn default() -> (r: Value)
        ensures
            r is Empty,
    {
        Value::Empty
    }
}

impl From<usize> for Value {
    /// Lenient conversion, as `Value::from_usize`.
    fn from(n: usize) -> (r: Value) {
        Value::from_usize(n)
    }
}

impl vstd::std_specs::convert::FromSpecImpl<usize> for Value {
    open spec fn obeys_from_spec() -> bool {
        true
    }

    open spec fn from_spec(n: usize) -> Value {
        Value::of_code(n as int)
    }
}

impl From<&Value> for usize {
    /// The integer code, as `Value::to_usize`.
    fn from(v: &Value) -> (r: usize) {
        v.to_usize()
    }
}

impl vstd::std_specs::convert::FromSpecImpl<&Value> for usize {
    open spec fn obeys_from_spec() -> bool {
        true
    }

    open spec fn from_spec(v: &Value) -> usize {
        v.code() as usize
    }
}

impl From<&Value> for char {
    /// The display character, as `Value::to_char`.
    fn from(v: &Value) -> (r: char) {
        v.to_char()
    }
}

impl vstd::std_specs::convert::FromSpecImpl<&Value> for char {
    open spec fn obeys_from_spec() -> bool {
        true
    }

    open spec fn from_spec(v: &Value) -> char {
        v.display_char()
    }
}

} // verus!
