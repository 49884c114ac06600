//! Reading the required tileset properties `palette_bank` and `pnd_size`.
//!
//! An integer property is narrowed to its low byte; a textual property is
//! read as a decimal number the way `str::parse::<u8>` reads one: an
//! optional `+`, then at least one digit, value at most 255. A property
//! of any other kind cannot be read as a number and is invalid.

use vstd::prelude::*;

use crate::errors::SaturnError;
use crate::model::PropVal;

verus! {

broadcast use vstd::string::is_ascii_spec_bytes;

/// Is the character a decimal digit?
pub open spec fn is_digit(c: char) -> bool {
    '0' <= c <= '9'
}

/// Is every character a decimal digit?
pub open spec fn all_digits(s: Seq<char>) -> bool {
    forall|i: int| 0 <= i < s.len() ==> is_digit(#[trigger] s[i])
}

/// The decimal value of a digit string.
pub open spec fn digits_value(s: Seq<char>) -> int
    decreases s.len(),
{
    if s.len() == 0 {
        0
    } else {
        digits_value(s.drop_last()) * 10 + (s.last() as u8 - 48)
    }
}

/// The digit part of a number: everything after one optional leading `+`.
pub open spec fn number_body(s: Seq<char>) -> Seq<char> {
    if s.len() > 0 && s[0] == '+' {
        s.subrange(1, s.len() as int)
    } else {
        s
    }
}

/// What `str::parse::<u8>` returns: the decimal value of an optionally
/// `+`-signed digit string, or nothing when the string is empty, holds a
/// non-digit, or exceeds 255.
pub open spec fn spec_parse_u8(s: Seq<char>) -> Option<u8> {
    let body = number_body(s);
    if body.len() == 0 || !all_digits(body) || digits_value(body) > 255 {
        None
    } else {
        Some(digits_value(body) as u8)
    }
}

/// A digit string's value is never negative.
pub proof fn lemma_digits_value_nonneg(s: Seq<char>)
    requires
        all_digits(s),
    ensures
        digits_value(s) >= 0,
    decreases s.len(),
{
    if s.len() > 0 {
        assert(all_digits(s.drop_last())) by {
            assert(forall|i: int| 0 <= i < s.len() - 1 ==> s.drop_last()[i] == s[i]);
        }
        lemma_digits_value_nonneg(s.drop_last());
        assert(is_digit(s[s.len() - 1]));
    }
}

/// Reads a decimal `u8` from text, exactly as `str::parse::<u8>` would.
pub fn parse_u8_text(s: &str) -> (r: Option<u8>)
    ensures
        r == spec_parse_u8(s@),
{
    if !s.is_ascii() {
        proof {
            let i = choose|i: int|
                0 <= i < s@.len() && !('\0' <= #[trigger] s@[i] <= '\u{7f}');
            let body = number_body(s@);
            if s@.len() > 0 && s@[0] == '+' {
                assert(i >= 1);
                assert(body[i - 1] == s@[i]);
                assert(!is_digit(body[i - 1]));
            } else {
                assert(body[i] == s@[i]);
                assert(!is_digit(body[i]));
            }
        }
        return None;
    }
    let bytes = s.as_bytes();
    proof {
        assert(bytes@ =~= Seq::new(s@.len(), |i: int| s@[i] as u8));
    }
    let n = bytes.len();
    if n == 0 {
        return None;
    }
    let start: usize = if bytes[0] == 43 {
        proof {
            assert(s@[0] as u8 == 43);
            assert(s@[0] == '+');
        }
        1
    } else {
        proof {
            assert(s@[0] != '+');
        }
        0
    };
    let ghost body = number_body(s@);
    proof {
        assert(forall|k: int| 0 <= k < body.len() ==> body[k] == s@[k + start]);
    }
    if n == start {
        return None;
    }
    let mut i: usize = start;
    let mut acc: u16 = 0;
    let mut over: bool = false;
    while i < n
        invariant
            start <= i <= n,
            start <= 1,
            n == s@.len(),
            vstd::string::is_ascii(s),
            bytes@ == Seq::new(s@.len(), |k: int| s@[k] as u8),
            body == number_body(s@),
            body.len() == n - start,
            forall|k: int| 0 <= k < body.len() ==> body[k] == s@[k + start],
            all_digits(body.take(i - start)),
            over == (digits_value(body.take(i - start)) > 255),
            !over ==> acc == digits_value(body.take(i - start)),
            acc <= 255,
        decreases n - i,
    {
        let b = bytes[i];
        proof {
            assert(bytes@[i as int] == s@[i as int] as u8);
            assert('\0' <= s@[i as int] <= '\u{7f}');
        }
        if b < 48 || b > 57 {
            proof {
                assert(body[i - start] == s@[i as int]);
                assert(!is_digit(body[i - start]));
                assert(!all_digits(body));
            }
            return None;
        }
        let d: u16 = (b - 48) as u16;
        let ghost prev = body.take(i - start);
        let ghost cur = body.take(i - start + 1);
        proof {
            assert(cur.drop_last() =~= prev);
            assert(cur.last() == body[i - start]);
            assert(body[i - start] == s@[i as int]);
            assert(is_digit(cur.last()));
            assert(all_digits(cur)) by {
                assert(forall|k: int| 0 <= k < cur.len() - 1 ==> cur[k] == prev[k]);
            }
            assert(digits_value(cur) == digits_value(prev) * 10 + d);
            lemma_digits_value_nonneg(prev);
        }
        let wide = acc * 10 + d;
        if over || wide > 255 {
            over = true;
            acc = 0;
        } else {
            acc = wide;
        }
        i += 1;
    }
    proof {
        assert(body.take(n - start) =~= body);
    }
    if over {
        None
    } else {
        Some(acc as u8)
    }
}

/// The `palette_bank` property as the hardware sees it: the low byte of
/// an integer value, the parsed value of a textual one; missing is an
/// error, and so is any value that cannot be read as a number.
pub open spec fn spec_palette_bank(p: Option<PropVal>) -> Result<u8, SaturnError> {
    match p {
        Option::None => Err(SaturnError::MissingProperty),
        Option::Some(v) => match v {
            PropVal::IntValue(i) => Ok(i as u8),
            PropVal::StringValue(s) => match spec_parse_u8(s@) {
                Option::Some(b) => Ok(b),
                Option::None => Err(SaturnError::InvalidPropertyValue),
            },
            PropVal::Other => Err(SaturnError::InvalidPropertyValue),
        },
    }
}

/// The `pnd_size` (palette word size) property, read the same way.
pub open spec fn spec_words_per_palette(p: Option<PropVal>) -> Result<u8, SaturnError> {
    match p {
        Option::None => Err(SaturnError::MissingProperty),
        Option::Some(v) => match v {
            PropVal::IntValue(i) => Ok(i as u8),
            PropVal::StringValue(s) => match spec_parse_u8(s@) {
                Option::Some(b) => Ok(b),
                Option::None => Err(SaturnError::InvalidPropertyValue),
            },
            PropVal::Other => Err(SaturnError::InvalidPropertyValue),
        },
    }
}

/// Reads the `palette_bank` property.
pub fn get_palette_bank(p: &Option<PropVal>) -> (r: Result<u8, SaturnError>)
    ensures
        r == spec_palette_bank(*p),
{
    match p {
        Option::None => Err(SaturnError::MissingProperty),
        Option::Some(PropVal::IntValue(i)) => Ok(*i as u8),
        Option::Some(PropVal::StringValue(s)) => match parse_u8_text(s.as_str()) {
            Option::Some(b) => Ok(b),
            Option::None => Err(SaturnError::InvalidPropertyValue),
        },
        Option::Some(PropVal::Other) => Err(SaturnError::InvalidPropertyValue),
    }
}

/// Reads the `pnd_size` (palette word size) property.
pub fn get_words_per_palette(p: &Option<PropVal>) -> (r: Result<u8, SaturnError>)
    ensures
        r == spec_words_per_palette(*p),
{
    match p {
        Option::None => Err(SaturnError::MissingProperty),
        Option::Some(PropVal::IntValue(i)) => Ok(*i as u8),
        Option::Some(PropVal::StringValue(s)) => match parse_u8_text(s.as_str()) {
            Option::Some(b) => Ok(b),
            Option::None => Err(SaturnError::InvalidPropertyValue),
        },
        Option::Some(PropVal::Other) => Err(SaturnError::InvalidPropertyValue),
    }
}

} // verus!
