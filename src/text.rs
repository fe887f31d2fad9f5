use vstd::prelude::*;

verus! {

/// Why a piece of text is not a decimal `usize`.
#[derive(Debug, Clone, Copy, PartialEq, Eq, Structural)]
pub enum NumberError {
    /// The text is empty.
    Empty,
    /// A character that is not a decimal digit, or a lone sign.
    InvalidDigit,
    /// The number does not fit in a `usize`.
    Overflow,
}

pub open spec fn is_digit(c: char) -> bool {
    '0' <= c && c <= '9'
}

pub open spec fn digit_value(c: char) -> int {
    c as int - '0' as int
}

/// Reads `t` as decimal digits, left to right; the first character that is
/// not a digit, or the first digit that takes the number past `usize::MAX`,
/// decides the error.
pub open spec fn fold_digits(t: Seq<char>) -> Result<usize, NumberError>
    decreases t.len(),
{
    if t.len() == 0 {
        Ok(0)
    } else {
        match fold_digits(t.drop_last()) {
            Err(e) => Err(e),
            Ok(n) => {
                let c = t.last();
                if !is_digit(c) {
                    Err(NumberError::InvalidDigit)
                } else if n * 10 + digit_value(c) > usize::MAX {
                    Err(NumberError::Overflow)
                } else {
                    Ok((n * 10 + digit_value(c)) as usize)
                }
            },
        }
    }
}

/// Decimal reading of an unsigned integer, with an optional leading `+`.
pub open spec fn parse_number(t: Seq<char>) -> Result<usize, NumberError> {
    if t.len() == 0 {
        Err(NumberError::Empty)
    } else if (t[0] == '+' || t[0] == '-') && t.len() == 1 {
        Err(NumberError::InvalidDigit)
    } else if t[0] == '+' {
        fold_digits(t.drop_first())
    } else {
        fold_digits(t)
    }
}

/// The decimal digits of `n`, most significant first.
pub open spec fn decimal_text(n: nat) -> Seq<char>
    decreases n,
{
    if n < 10 {
        seq![digit_char(n)]
    } else {
        decimal_text(n / 10).push(digit_char(n % 10))
    }
}

/// The ASCII digit for `d` in `0..=9`.
pub open spec fn digit_char(d: nat) -> char {
    ((d + 48) as u8) as char
}

/// The characters of `s`, in order.
pub fn chars_of(s: &str) -> (r: Vec<char>)
    ensures
        r@ == s@,
{
    let mut r: Vec<char> = Vec::new();
    for c in it: s.chars()
        invariant
            it.seq() == s@,
            r@ == s@.take(r@.len() as int),
            r@.len() == it.index(),
    {
        assert(s@.take(r@.len() as int + 1) == s@.take(r@.len() as int).push(c));
        r.push(c);
    }
    assert(s@.take(r@.len() as int) == s@);
    r
}

fn parse_digits(t: &Vec<char>, start: usize) -> (r: Result<usize, NumberError>)
    requires
        start <= t@.len(),
    ensures
        r == fold_digits(t@.subrange(start as int, t@.len() as int)),
{
    let mut n: usize = 0;
    let mut i: usize = start;
    while i < t.len()
        invariant
            start <= i <= t@.len(),
            fold_digits(t@.subrange(start as int, i as int)) == Ok::<usize, NumberError>(n),
        decreases t@.len() - i,
    {
        let c = t[i];
        assert(t@.subrange(start as int, i + 1).drop_last() == t@.subrange(start as int, i as int));
        if !('0' <= c && c <= '9') {
            proof { lemma_fold_error_sticks(t@, start as int, i as int + 1); }
            return Err(NumberError::InvalidDigit);
        }
        let d = (c as u32 - '0' as u32) as usize;
        let m = match n.checked_mul(10) {
            Some(m) => m,
            None => {
                proof { lemma_fold_error_sticks(t@, start as int, i as int + 1); }
                return Err(NumberError::Overflow);
            },
        };
        n = match m.checked_add(d) {
            Some(v) => v,
            None => {
                proof { lemma_fold_error_sticks(t@, start as int, i as int + 1); }
                return Err(NumberError::Overflow);
            },
        };
        i = i + 1;
    }
    assert(t@.subrange(start as int, t@.len() as int) == t@.subrange(start as int, i as int));
    Ok(n)
}

/// Once reading the digits has failed, the characters that follow do not
/// change the error.
proof fn lemma_fold_error_sticks(t: Seq<char>, start: int, k: int)
    requires
        0 <= start <= k <= t.len(),
        fold_digits(t.subrange(start, k)) is Err,
    ensures
        fold_digits(t.subrange(start, t.len() as int)) == fold_digits(t.subrange(start, k)),
    decreases t.len() - k,
{
    if k < t.len() {
        assert(t.subrange(start, k + 1).drop_last() == t.subrange(start, k));
        lemma_fold_error_sticks(t, start, k + 1);
    }
}

/// Reads `t` as a decimal `usize`, as `str::parse::<usize>` does.
pub fn parse_usize(t: &Vec<char>) -> (r: Result<usize, NumberError>)
    ensures
        r == parse_number(t@),
{
    if t.len() == 0 {
        Err(NumberError::Empty)
    } else if (t[0] == '+' || t[0] == '-') && t.len() == 1 {
        Err(NumberError::InvalidDigit)
    } else if t[0] == '+' {
        assert(t@.drop_first() == t@.subrange(1, t@.len() as int));
        parse_digits(t, 1)
    } else {
        assert(t@ == t@.subrange(0, t@.len() as int));
        parse_digits(t, 0)
    }
}


/// Relies on `String::push`: the character is appended at the end.
#[verifier::external_body]
pub(crate) fn push_char(s: &mut String, c: char)
    ensures
        final(s)@ == old(s)@.push(c),
{
    s.push(c);
}

/// The ASCII digit of `d`.
pub(crate) fn digit_to_char(d: usize) -> (r: char)
    requires
        d < 10,
    ensures
        r == digit_char(d as nat),
{
    (d as u8 + 48) as char
}

/// Appends the decimal digits of `n`.
pub(crate) fn push_decimal(s: &mut String, n: usize)
    ensures
        final(s)@ == old(s)@ + decimal_text(n as nat),
    decreases n,
{
    if n >= 10 {
        push_decimal(s, n / 10);
    }
    let c = digit_to_char(n % 10);
    push_char(s, c);
    assert(s@ == old(s)@ + decimal_text(n as nat));
}

impl NumberError {
    pub open spec fn text(self) -> Seq<char> {
        match self {
            NumberError::Empty => "cannot parse integer from empty string"@,
            NumberError::InvalidDigit => "invalid digit found in string"@,
            NumberError::Overflow => "number too large to fit in target type"@,
        }
    }

    /// The error's message, worded as the standard library words it.
    pub fn message(&self) -> (r: String)
        ensures
            r@ == self.text(),
    {
        let mut r = String::new();
        match self {
            NumberError::Empty => r.append("cannot parse integer from empty string"),
            NumberError::InvalidDigit => r.append("invalid digit found in string"),
            NumberError::Overflow => r.append("number too large to fit in target type"),
        }
        r
    }
}

} // verus!
