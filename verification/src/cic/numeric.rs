//! Counts that some rows spell as integers and others with a decimal point.

use vstd::prelude::*;
use crate::decimal::{all_digits, has_minus, is_digit, parse_usize, unsigned_value, without_plus};
use crate::text::{chars_of, find_char, first_index, lemma_first_index, prefix, suffix};

verus! {

/// The index of the first decimal point of `s`, or the length of `s` where it
/// has none.
pub open spec fn dot_index(s: Seq<char>) -> nat {
    first_index(s, '.')
}

/// Everything before the first decimal point of `s`; all of `s` where it has
/// none.
pub open spec fn integer_part(s: Seq<char>) -> Seq<char> {
    s.take(dot_index(s) as int)
}

/// The value of `s` read as a plain integer.
pub open spec fn plain_value(s: Seq<char>) -> Option<nat> {
    unsigned_value(s, usize::MAX as nat)
}

/// The value of `s` read as a number with a decimal point: the value of its
/// integer part, whatever follows the point.
pub open spec fn float_value(s: Seq<char>) -> Option<nat> {
    unsigned_value(integer_part(s), usize::MAX as nat)
}

/// The value of `s` and whether it was read as a number with a decimal point.
/// Where such a number is expected that reading is tried first and the plain
/// one second; otherwise the other way round.
pub open spec fn resolved_value(s: Seq<char>, expect_float: bool) -> Option<(nat, bool)> {
    if expect_float {
        match float_value(s) {
            Some(v) => Some((v, true)),
            None => match plain_value(s) {
                Some(v) => Some((v, false)),
                None => None,
            },
        }
    } else {
        match plain_value(s) {
            Some(v) => Some((v, false)),
            None => match float_value(s) {
                Some(v) => Some((v, true)),
                None => None,
            },
        }
    }
}

/// `s` without its leading minus sign, if it has one.
pub open spec fn magnitude_text(s: Seq<char>) -> Seq<char> {
    if has_minus(s) {
        s.skip(1)
    } else {
        s
    }
}

/// The value of `s` with its sign, and whether it was read as a number with a
/// decimal point. A leading minus sign is taken off, the rest is resolved as
/// a count and the sign put back. A magnitude above `isize::MAX` has no value.
pub open spec fn resolved_signed(s: Seq<char>, expect_float: bool) -> Option<(int, bool)> {
    match resolved_value(magnitude_text(s), expect_float) {
        Some((v, f)) => if v <= isize::MAX as nat {
            Some((if has_minus(s) { -(v as int) } else { v as int }, f))
        } else {
            None
        },
        None => None,
    }
}

/// The values of a forward and a backward field and the state that the pair
/// leaves behind: whether either of them was read as a number with a decimal
/// point.
pub open spec fn resolved_pair(fwd: Seq<char>, bwd: Seq<char>, expect_float: bool) -> Option<
    (nat, nat, bool),
> {
    match (resolved_value(fwd, expect_float), resolved_value(bwd, expect_float)) {
        (Some((a, fa)), Some((b, fb))) => Some((a, b, fa || fb)),
        _ => None,
    }
}

/// As `resolved_pair`, for fields that may carry a minus sign.
pub open spec fn resolved_signed_pair(
    fwd: Seq<char>,
    bwd: Seq<char>,
    expect_float: bool,
) -> Option<(int, int, bool)> {
    match (resolved_signed(fwd, expect_float), resolved_signed(bwd, expect_float)) {
        (Some((a, fa)), Some((b, fb))) => Some((a, b, fa || fb)),
        _ => None,
    }
}

/// A text that is no number.
#[derive(Clone, Copy, Debug, PartialEq, Eq, Structural)]
pub struct CustomParseError {
    /// Whether the text was being read as a number with a decimal point when
    /// reading failed; `false` where it was being read as an integer.
    pub was_parsing_float: bool,
}

impl CustomParseError {
    /// The text of the error.
    pub open spec fn spec_message(self) -> Seq<char> {
        if self.was_parsing_float {
            "Cannot parse the string as a float."@
        } else {
            "Cannot parse the string as an integer."@
        }
    }

    /// The text of the error.
    pub fn message(&self) -> (out: String)
        ensures
            out@ == self.spec_message(),
    {
        if self.was_parsing_float {
            "Cannot parse the string as a float.".to_owned()
        } else {
            "Cannot parse the string as an integer.".to_owned()
        }
    }
}

/// Reads the counts of one pair of columns, remembering from row to row
/// whether the column was last seen with a decimal point.
#[derive(Clone, Copy, Debug, PartialEq, Eq, Structural)]
pub struct PacketPartParser {
    pub is_last_float: bool,
}

impl Default for PacketPartParser {
    fn default() -> (out: Self)
        ensures
            !out.is_last_float,
    {
        PacketPartParser { is_last_float: false }
    }
}

/// The index of the first decimal point of `s`, or its length.
pub fn find_dot(s: &Vec<char>) -> (i: usize)
    ensures
        i == dot_index(s@),
        i <= s.len(),
{
    find_char(s, '.')
}

/// Reads `s` as a number with a decimal point.
fn read_float(s: &Vec<char>) -> (out: Result<usize, CustomParseError>)
    ensures
        match out {
            Ok(v) => float_value(s@) == Some(v as nat),
            Err(e) => float_value(s@) is None && e.was_parsing_float == (dot_index(s@)
                == s@.len()),
        },
{
    let dot = find_dot(s);
    let whole = prefix(s, dot);
    match parse_usize(&whole) {
        Some(v) => Ok(v),
        None => Err(CustomParseError { was_parsing_float: dot == s.len() }),
    }
}

/// Resolves `s` as a count.
fn resolve(s: &Vec<char>, expect_float: bool) -> (out: Result<(usize, bool), CustomParseError>)
    ensures
        match out {
            Ok((v, f)) => resolved_value(s@, expect_float) == Some((v as nat, f)),
            Err(e) => resolved_value(s@, expect_float) is None && e == count_error(
                s@,
                expect_float,
            ),
        },
{
    if expect_float {
        match read_float(s) {
            Ok(v) => Ok((v, true)),
            Err(_) => match parse_usize(s) {
                Some(v) => Ok((v, false)),
                None => Err(CustomParseError { was_parsing_float: false }),
            },
        }
    } else {
        match parse_usize(s) {
            Some(v) => Ok((v, false)),
            None => match read_float(s) {
                Ok(v) => Ok((v, true)),
                Err(e) => Err(e),
            },
        }
    }
}

/// Whether the attempt that was made last at a text without a value was to
/// read it as a number with a decimal point, and the text had no such point.
pub open spec fn last_attempt_was_float(s: Seq<char>, expect_float: bool) -> bool {
    !expect_float && dot_index(s) == s.len()
}

/// The error for a text that has no value as a count.
pub open spec fn count_error(s: Seq<char>, expect_float: bool) -> CustomParseError {
    CustomParseError { was_parsing_float: last_attempt_was_float(s, expect_float) }
}

/// The error for a text that has no value as a count with a sign: the error
/// of its magnitude, or, where the magnitude is too large, the reading that
/// gave it.
pub open spec fn signed_count_error(s: Seq<char>, expect_float: bool) -> CustomParseError {
    match resolved_value(magnitude_text(s), expect_float) {
        Some((_, with_point)) => CustomParseError { was_parsing_float: with_point },
        None => count_error(magnitude_text(s), expect_float),
    }
}

/// The error for a pair of which one field has no value: that of the forward
/// field where it has none, otherwise that of the backward field.
pub open spec fn pair_error(fwd: Seq<char>, bwd: Seq<char>, expect_float: bool) -> CustomParseError {
    if resolved_value(fwd, expect_float) is None {
        count_error(fwd, expect_float)
    } else {
        count_error(bwd, expect_float)
    }
}

/// As `pair_error`, for fields that may carry a minus sign.
pub open spec fn signed_pair_error(
    fwd: Seq<char>,
    bwd: Seq<char>,
    expect_float: bool,
) -> CustomParseError {
    if resolved_signed(fwd, expect_float) is None {
        signed_count_error(fwd, expect_float)
    } else {
        signed_count_error(bwd, expect_float)
    }
}

/// Resolves `s` as a count that may carry a minus sign.
fn resolve_signed(s: &Vec<char>, expect_float: bool) -> (out: Result<
    (isize, bool),
    CustomParseError,
>)
    ensures
        match out {
            Ok((v, f)) => resolved_signed(s@, expect_float) == Some((v as int, f)),
            Err(e) => resolved_signed(s@, expect_float) is None && e == signed_count_error(
                s@,
                expect_float,
            ),
        },
{
    let negative = s.len() > 0 && s[0] == '-';
    let body = if negative {
        suffix(s, 1)
    } else {
        proof {
            assert(s@.skip(0) == s@);
        }
        suffix(s, 0)
    };
    match resolve(&body, expect_float) {
        Ok((v, f)) => {
            if v > isize::MAX as usize {
                Err(CustomParseError { was_parsing_float: f })
            } else if negative {
                Ok((-(v as isize), f))
            } else {
                Ok((v as isize, f))
            }
        },
        Err(e) => Err(e),
    }
}

impl PacketPartParser {
    /// Reads `s` as a number with a decimal point: the integer before the
    /// point, or all of `s` where it has no point. The error says whether
    /// `s` lacked the point.
    pub fn parse_float_str(&self, s: &str) -> (out: Result<usize, CustomParseError>)
        ensures
            match out {
                Ok(v) => float_value(s@) == Some(v as nat),
                Err(e) => float_value(s@) is None && e.was_parsing_float == (dot_index(s@)
                    == s@.len()),
            },
    {
        let chars = chars_of(s);
        read_float(&chars)
    }

    /// Reads `s` as a count, trying first the reading that `is_from_float`
    /// expects, and says which reading gave the value.
    pub fn parse_str_usize(&self, s: &str, is_from_float: bool) -> (out: Result<
        (usize, bool),
        CustomParseError,
    >)
        ensures
            match out {
                Ok((v, f)) => resolved_value(s@, is_from_float) == Some((v as nat, f)),
                Err(e) => resolved_value(s@, is_from_float) is None && e == count_error(
                    s@,
                    is_from_float,
                ),
            },
    {
        let chars = chars_of(s);
        resolve(&chars, is_from_float)
    }

    /// Reads `s` as a count that may carry a minus sign.
    pub fn parse_str_isize(&self, s: &str, is_from_float: bool) -> (out: Result<
        (isize, bool),
        CustomParseError,
    >)
        ensures
            match out {
                Ok((v, f)) => resolved_signed(s@, is_from_float) == Some((v as int, f)),
                Err(e) => resolved_signed(s@, is_from_float) is None && e == signed_count_error(
                    s@,
                    is_from_float,
                ),
            },
    {
        let chars = chars_of(s);
        resolve_signed(&chars, is_from_float)
    }

    /// Reads the forward and the backward count of one row and remembers
    /// whether either was spelled with a decimal point. Where one of them is
    /// no number the parser stays as it was.
    pub fn parse_usize(&mut self, fwd: &str, bwd: &str) -> (out: Result<
        [usize; 2],
        CustomParseError,
    >)
        ensures
            match out {
                Ok(v) => resolved_pair(fwd@, bwd@, old(self).is_last_float) == Some(
                    (v[0] as nat, v[1] as nat, final(self).is_last_float),
                ),
                Err(e) => {
                    &&& resolved_pair(fwd@, bwd@, old(self).is_last_float) is None
                    &&& e == pair_error(fwd@, bwd@, old(self).is_last_float)
                    &&& *final(self) == *old(self)
                },
            },
    {
        let expect = self.is_last_float;
        let (fwd_count, is_fwd_float) = match self.parse_str_usize(fwd, expect) {
            Ok(p) => p,
            Err(e) => {
                return Err(e);
            },
        };
        let (bwd_count, is_bwd_float) = match self.parse_str_usize(bwd, expect) {
            Ok(p) => p,
            Err(e) => {
                return Err(e);
            },
        };
        self.is_last_float = is_fwd_float || is_bwd_float;
        Ok([fwd_count, bwd_count])
    }

    /// As `parse_usize`, for counts that may carry a minus sign.
    pub fn parse_isize(&mut self, fwd: &str, bwd: &str) -> (out: Result<
        [isize; 2],
        CustomParseError,
    >)
        ensures
            match out {
                Ok(v) => resolved_signed_pair(fwd@, bwd@, old(self).is_last_float) == Some(
                    (v[0] as int, v[1] as int, final(self).is_last_float),
                ),
                Err(e) => {
                    &&& resolved_signed_pair(fwd@, bwd@, old(self).is_last_float) is None
                    &&& e == signed_pair_error(fwd@, bwd@, old(self).is_last_float)
                    &&& *final(self) == *old(self)
                },
            },
    {
        let expect = self.is_last_float;
        let (fwd_count, is_fwd_float) = match self.parse_str_isize(fwd, expect) {
            Ok(p) => p,
            Err(e) => {
                return Err(e);
            },
        };
        let (bwd_count, is_bwd_float) = match self.parse_str_isize(bwd, expect) {
            Ok(p) => p,
            Err(e) => {
                return Err(e);
            },
        };
        self.is_last_float = is_fwd_float || is_bwd_float;
        Ok([fwd_count, bwd_count])
    }
}

/// A text that is a plain integer is its own integer part.
pub proof fn lemma_plain_is_float(s: Seq<char>)
    requires
        plain_value(s) is Some,
    ensures
        integer_part(s) == s,
        float_value(s) == plain_value(s),
{
    let body = without_plus(s);
    assert(all_digits(body));
    assert forall|j: int| 0 <= j < s.len() implies #[trigger] s[j] != '.' by {
        if s[0] == '+' {
            if j > 0 {
                assert(s[j] == body[j - 1]);
                assert(is_digit(body[j - 1]));
            }
        } else {
            assert(is_digit(body[j]));
        }
    }
    lemma_first_index(s, '.', s.len() as int);
    assert(s.take(s.len() as int) == s);
}

/// Whether a text has a value, and which, does not depend on what is
/// expected of it; and where a number with a decimal point is expected, every
/// text that has a value is read as one.
pub proof fn lemma_resolved_value(s: Seq<char>)
    ensures
        resolved_value(s, true) is Some <==> resolved_value(s, false) is Some,
        resolved_value(s, true) matches Some((value, with_point)) ==> with_point && (resolved_value(
            s,
            false,
        ) matches Some((other, _)) && other == value),
{
    if plain_value(s) is Some {
        lemma_plain_is_float(s);
    }
}

/// Once a pair was read with a decimal point, the state stays so for every
/// pair that is read after it.
pub proof fn lemma_state_stays_fractional(fwd: Seq<char>, bwd: Seq<char>)
    requires
        resolved_pair(fwd, bwd, true) is Some,
    ensures
        resolved_pair(fwd, bwd, true) matches Some((_, _, state)) && state,
{
    lemma_resolved_value(fwd);
    lemma_resolved_value(bwd);
}

} // verus!
