use vstd::prelude::*;

use crate::error::Error;
use crate::number::{all_digits, decimal_value, decimal_within, parse_decimal};

verus! {

/// How much to move: a number of levels, or a percentage of the maximum in hundredths of a
/// percent (`250` stands for 2.5%).
#[derive(Debug, Clone, Copy, PartialEq, Eq, Structural)]
pub enum Quantity {
    Absolute(usize),
    Relative(usize),
}

#[derive(Debug, Clone, Copy, PartialEq, Eq, Structural)]
pub enum Sign {
    Plus,
    Minus,
}

/// A requested change: go to a level, or move by a signed amount.
#[derive(Debug, Clone, Copy, PartialEq, Eq, Structural)]
pub enum Input {
    To(Quantity),
    By(Sign, Quantity),
}

pub open spec fn plus_sign() -> u8 {
    43
}

pub open spec fn minus_sign() -> u8 {
    45
}

pub open spec fn percent_sign() -> u8 {
    37
}

pub open spec fn decimal_point() -> u8 {
    46
}

/// How many fraction digits a percentage carries: a `.` before the last one or two
/// characters announces them.
pub open spec fn fraction_len(body: Seq<u8>) -> int {
    if body.len() >= 2 && body[body.len() - 2] == decimal_point() {
        1
    } else if body.len() >= 3 && body[body.len() - 3] == decimal_point() {
        2
    } else {
        0
    }
}

/// The whole part of a percentage.
pub open spec fn whole_part(body: Seq<u8>) -> Seq<u8> {
    if fraction_len(body) == 0 {
        body
    } else {
        body.take(body.len() - fraction_len(body) - 1)
    }
}

/// The fraction digits of a percentage.
pub open spec fn fraction_part(body: Seq<u8>) -> Seq<u8> {
    body.skip(body.len() - fraction_len(body))
}

/// A percentage such as `10`, `2.5` or `0.25`, in hundredths, when it is one and does
/// not exceed `isize::MAX` hundredths.
pub open spec fn parsed_hundredths(body: Seq<u8>) -> Option<nat> {
    let whole = whole_part(body);
    let fraction = fraction_part(body);
    if whole.len() > 0 && all_digits(whole) && all_digits(fraction) {
        let hundredths = decimal_value(whole) * 100 + if fraction_len(body) == 1 {
            decimal_value(fraction) * 10
        } else {
            decimal_value(fraction)
        };
        if hundredths <= isize::MAX {
            Some(hundredths)
        } else {
            None
        }
    } else {
        None
    }
}

/// The grammar of a request: an optional `+` or `-`, then either a decimal numeral no
/// larger than `isize::MAX`, or a percentage (a numeral with an optional fraction of one
/// or two digits) followed by `%`. A sign makes it a move by an amount, its absence a move
/// to a level.
pub open spec fn parsed_input(t: Seq<u8>) -> Option<Input> {
    let sign = if t.len() > 0 && t[0] == plus_sign() {
        Some(Sign::Plus)
    } else if t.len() > 0 && t[0] == minus_sign() {
        Some(Sign::Minus)
    } else {
        None
    };
    let rest = if sign is Some {
        t.drop_first()
    } else {
        t
    };
    let quantity = if rest.len() > 0 && rest.last() == percent_sign() {
        match parsed_hundredths(rest.drop_last()) {
            Some(v) => Some(Quantity::Relative(v as usize)),
            None => None,
        }
    } else {
        match decimal_within(rest, isize::MAX as nat) {
            Some(v) => Some(Quantity::Absolute(v as usize)),
            None => None,
        }
    };
    match quantity {
        Some(q) => match sign {
            Some(s) => Some(Input::By(s, q)),
            None => Some(Input::To(q)),
        },
        None => None,
    }
}

proof fn lemma_short_value(s: Seq<u8>)
    requires
        all_digits(s),
        s.len() <= 2,
    ensures
        decimal_value(s) <= 99,
        s.len() <= 1 ==> decimal_value(s) <= 9,
    decreases s.len(),
{
    if s.len() > 0 {
        assert(all_digits(s.drop_last()));
        lemma_short_value(s.drop_last());
    }
}

/// Reads a percentage such as `10`, `2.5` or `0.25` into hundredths.
fn parse_hundredths(body: &[u8]) -> (r: Option<usize>)
    ensures
        r matches Some(v) ==> parsed_hundredths(body@) == Some(v as nat),
        r is None ==> parsed_hundredths(body@) is None,
{
    let n = body.len();
    let flen: usize = if n >= 2 && body[n - 2] == 46 {
        1
    } else if n >= 3 && body[n - 3] == 46 {
        2
    } else {
        0
    };
    let whole_end: usize = if flen == 0 {
        n
    } else {
        n - flen - 1
    };
    let whole = slice_between(body, 0, whole_end);
    let fraction = slice_between(body, n - flen, n);
    assert(whole@ =~= whole_part(body@));
    assert(fraction@ =~= fraction_part(body@));
    let w = match parse_decimal(whole, usize::MAX) {
        Some(w) => w,
        None => return None,
    };
    let f: usize = if flen == 0 {
        assert(fraction@.len() == 0);
        assert(decimal_value(fraction@) == 0);
        0
    } else {
        proof {
            if all_digits(fraction@) {
                lemma_short_value(fraction@);
            }
        }
        match parse_decimal(fraction, 99) {
            Some(f) => if flen == 1 {
                f * 10
            } else {
                f
            },
            None => return None,
        }
    };
    let total: u128 = (w as u128) * 100 + (f as u128);
    if total <= isize::MAX as u128 {
        Some(total as usize)
    } else {
        None
    }
}

impl Input {
    /// Reads a request such as `50`, `+10`, `-5%`, `+2.5%` or `25%`.
    pub fn parse(text: &[u8]) -> (r: Result<Input, Error>)
        ensures
            r == (match parsed_input(text@) {
                Some(i) => Ok::<Input, Error>(i),
                None => Err(Error::ParseError),
            }),
    {
        let n = text.len();
        let sign = if n > 0 && text[0] == 43 {
            Some(Sign::Plus)
        } else if n > 0 && text[0] == 45 {
            Some(Sign::Minus)
        } else {
            None
        };
        let start: usize = if sign.is_some() {
            1
        } else {
            0
        };
        let rest = slice_between(text, start, n);
        assert(rest@ =~= (if sign is Some {
            text@.drop_first()
        } else {
            text@
        }));
        let m = rest.len();
        let quantity = if m > 0 && rest[m - 1] == 37 {
            let body = slice_between(rest, 0, m - 1);
            assert(body@ =~= rest@.drop_last());
            match parse_hundredths(body) {
                Some(v) => Some(Quantity::Relative(v)),
                None => None,
            }
        } else {
            match parse_decimal(rest, isize::MAX as usize) {
                Some(v) => Some(Quantity::Absolute(v)),
                None => None,
            }
        };
        match quantity {
            Some(q) => match sign {
                Some(s) => Ok(Input::By(s, q)),
                None => Ok(Input::To(q)),
            },
            None => Err(Error::ParseError),
        }
    }
}

fn slice_between(s: &[u8], start: usize, end: usize) -> (r: &[u8])
    requires
        start <= end <= s@.len(),
    ensures
        r@ == s@.subrange(start as int, end as int),
{
    let (head, _) = s.split_at(end);
    let (_, tail) = head.split_at(start);
    assert(tail@ =~= s@.subrange(start as int, end as int));
    tail
}

} // verus!
