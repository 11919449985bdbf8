//! Decimal rendering and parsing of the identifiers and timestamps that
//! the record-keeping core hands to and receives from its callers.

use vstd::prelude::*;

use crate::ScriberError;

verus! {

/// The decimal digit character for a value in `0..=9`.
pub open spec fn dec_digit(d: int) -> char {
    if d == 0 {
        '0'
    } else if d == 1 {
        '1'
    } else if d == 2 {
        '2'
    } else if d == 3 {
        '3'
    } else if d == 4 {
        '4'
    } else if d == 5 {
        '5'
    } else if d == 6 {
        '6'
    } else if d == 7 {
        '7'
    } else if d == 8 {
        '8'
    } else {
        '9'
    }
}

/// The usual decimal rendering of a nonnegative integer, most significant
/// digit first, with no leading zeros (a lone `0` for zero).
pub open spec fn dec_nat(n: nat) -> Seq<char>
    decreases n,
{
    if n < 10 {
        seq![dec_digit(n as int)]
    } else {
        dec_nat((n / 10) as nat).push(dec_digit((n % 10) as int))
    }
}

/// The decimal rendering of a signed integer: a leading `-` for negative
/// values, then the rendering of the magnitude.
pub open spec fn dec_int(n: int) -> Seq<char> {
    if n < 0 {
        seq!['-'] + dec_nat((-n) as nat)
    } else {
        dec_nat(n as nat)
    }
}

/// Whether `c` is a decimal digit character.
pub open spec fn is_dec_digit(c: char) -> bool {
    c == '0' || c == '1' || c == '2' || c == '3' || c == '4' || c == '5' || c == '6' || c == '7'
        || c == '8' || c == '9'
}

/// The value of a decimal digit character.
pub open spec fn digit_val(c: char) -> int {
    if c == '0' {
        0
    } else if c == '1' {
        1
    } else if c == '2' {
        2
    } else if c == '3' {
        3
    } else if c == '4' {
        4
    } else if c == '5' {
        5
    } else if c == '6' {
        6
    } else if c == '7' {
        7
    } else if c == '8' {
        8
    } else {
        9
    }
}

/// Whether every character of `s` is a decimal digit.
pub open spec fn all_dec_digits(s: Seq<char>) -> bool {
    forall|i: int| 0 <= i < s.len() ==> is_dec_digit(#[trigger] s[i])
}

/// The integer value of a sequence of decimal digit characters
/// (zero for the empty sequence; leading zeros are allowed).
pub open spec fn digits_val(s: Seq<char>) -> int
    decreases s.len(),
{
    if s.len() == 0 {
        0
    } else {
        digits_val(s.drop_last()) * 10 + digit_val(s.last())
    }
}

/// Whether `s` is a well-formed session identifier: an optional leading
/// `-`, then at least one decimal digit, with a value that fits `i64`.
pub open spec fn valid_session_id_text(s: Seq<char>) -> bool {
    if s.len() > 0 && s[0] == '-' {
        s.len() >= 2 && all_dec_digits(s.skip(1)) && digits_val(s.skip(1))
            <= 0x8000_0000_0000_0000
    } else {
        s.len() >= 1 && all_dec_digits(s) && digits_val(s) <= i64::MAX
    }
}

/// The identifier a well-formed session identifier text denotes.
pub open spec fn session_id_value(s: Seq<char>) -> int {
    if s.len() > 0 && s[0] == '-' {
        -digits_val(s.skip(1))
    } else {
        digits_val(s)
    }
}

proof fn lemma_digits_val_nonneg(s: Seq<char>)
    requires
        all_dec_digits(s),
    ensures
        digits_val(s) >= 0,
    decreases s.len(),
{
    if s.len() > 0 {
        assert(all_dec_digits(s.drop_last()));
        lemma_digits_val_nonneg(s.drop_last());
    }
}

proof fn lemma_digits_val_prefix(s: Seq<char>, j: int)
    requires
        all_dec_digits(s),
        0 <= j <= s.len(),
    ensures
        digits_val(s.take(j)) <= digits_val(s),
    decreases s.len() - j,
{
    if j == s.len() {
        assert(s.take(j) =~= s);
    } else {
        lemma_digits_val_prefix(s, j + 1);
        assert(s.take(j + 1).drop_last() =~= s.take(j));
        assert(all_dec_digits(s.take(j)));
        lemma_digits_val_nonneg(s.take(j));
        assert(digits_val(s.take(j + 1)) == digits_val(s.take(j)) * 10 + digit_val(
            s.take(j + 1).last(),
        ));
    }
}

/// The exec counterpart of `is_dec_digit` / `digit_val`: the value of a
/// digit character, or `None` for any other character.
fn char_digit(c: char) -> (r: Option<u64>)
    ensures
        is_dec_digit(c) ==> r == Some(digit_val(c) as u64),
        !is_dec_digit(c) ==> r is None,
{
    match c {
        '0' => Some(0),
        '1' => Some(1),
        '2' => Some(2),
        '3' => Some(3),
        '4' => Some(4),
        '5' => Some(5),
        '6' => Some(6),
        '7' => Some(7),
        '8' => Some(8),
        '9' => Some(9),
        _ => None,
    }
}

/// The one-character string for a decimal digit value.
fn digit_str(d: u64) -> (r: &'static str)
    requires
        d < 10,
    ensures
        r@ =~= seq![dec_digit(d as int)],
{
    proof {
        reveal_strlit("0");
        reveal_strlit("1");
        reveal_strlit("2");
        reveal_strlit("3");
        reveal_strlit("4");
        reveal_strlit("5");
        reveal_strlit("6");
        reveal_strlit("7");
        reveal_strlit("8");
        reveal_strlit("9");
    }
    match d {
        0 => "0",
        1 => "1",
        2 => "2",
        3 => "3",
        4 => "4",
        5 => "5",
        6 => "6",
        7 => "7",
        8 => "8",
        _ => "9",
    }
}

/// Renders a nonnegative value in decimal.
pub fn u64_dec(n: u64) -> (s: String)
    ensures
        s@ == dec_nat(n as nat),
    decreases n,
{
    if n < 10 {
        let mut s = String::new();
        s.append(digit_str(n));
        proof {
            assert(s@ =~= dec_nat(n as nat));
        }
        s
    } else {
        proof {
            assert(n / 10 < n) by (nonlinear_arith)
                requires
                    n >= 10,
            ;
        }
        let mut s = u64_dec(n / 10);
        s.append(digit_str(n % 10));
        proof {
            assert(s@ =~= dec_nat(n as nat));
        }
        s
    }
}

/// Renders a signed value in decimal, with a leading `-` when negative.
pub fn i64_dec(n: i64) -> (s: String)
    ensures
        s@ == dec_int(n as int),
{
    if n >= 0 {
        u64_dec(n as u64)
    } else {
        let mag: u64 = if n == i64::MIN {
            9223372036854775808u64
        } else {
            (0 - n) as u64
        };
        assert(mag as int == -(n as int));
        let mut s = String::new();
        s.append("-");
        let digits = u64_dec(mag);
        s.append(digits.as_str());
        proof {
            reveal_strlit("-");
            assert(s@ =~= dec_int(n as int));
        }
        s
    }
}

/// Parses a session identifier from its decimal text.
///
/// Returns `Ok` exactly on well-formed texts (an optional `-`, then at
/// least one digit, value within `i64`), and `MalformedIdentifier` on
/// every other input, with nothing mutated.
pub fn parse_session_id(s: &str) -> (r: Result<i64, ScriberError>)
    ensures
        valid_session_id_text(s@) ==> (r matches Ok(v) && v as int == session_id_value(s@)),
        !valid_session_id_text(s@) ==> r == Err::<i64, ScriberError>(
            ScriberError::MalformedIdentifier,
        ),
{
    let n = s.unicode_len();
    let neg = n > 0 && s.get_char(0) == '-';
    let start: usize = if neg {
        1
    } else {
        0
    };
    if n == start {
        return Err(ScriberError::MalformedIdentifier);
    }
    let limit: u64 = if neg {
        9223372036854775808u64
    } else {
        9223372036854775807u64
    };
    let ghost digits: Seq<char> = if neg {
        s@.skip(1)
    } else {
        s@
    };
    let mut acc: u64 = 0;
    let mut i: usize = start;
    while i < n
        invariant
            start <= i <= n,
            n == s@.len(),
            start == if neg {
                1int
            } else {
                0int
            },
            neg ==> n >= 2 && s@[0] == '-',
            !neg ==> (n >= 1 && s@[0] != '-'),
            digits == if neg {
                s@.skip(1)
            } else {
                s@
            },
            limit == if neg {
                0x8000_0000_0000_0000u64
            } else {
                0x7fff_ffff_ffff_ffffu64
            },
            all_dec_digits(digits.take(i - start)),
            acc as int == digits_val(digits.take(i - start)),
            acc <= limit,
        decreases n - i,
    {
        let c = s.get_char(i);
        assert(c == digits[i - start]);
        let d = match char_digit(c) {
            Some(d) => d,
            None => {
                assert(!is_dec_digit(digits[i - start]));
                assert(!valid_session_id_text(s@));
                return Err(ScriberError::MalformedIdentifier);
            },
        };
        assert(d <= 9);
        if acc > (limit - d) / 10 {
            // The value of the digits read so far already exceeds the
            // representable range; any continuation only grows it.
            proof {
                assert((limit - d) as int == 10 * (((limit - d) as int) / 10) + (((limit
                    - d) as int) % 10));
                assert(acc as int * 10 + d as int > limit as int);
                assert(digits.take(i + 1 - start).drop_last() =~= digits.take(i - start));
                assert(digits.take(i + 1 - start).last() == digits[i - start]);
                assert(digits_val(digits.take(i + 1 - start)) > limit as int);
                if all_dec_digits(digits) {
                    lemma_digits_val_prefix(digits, i + 1 - start);
                    assert(digits_val(digits) > limit as int);
                }
                assert(!valid_session_id_text(s@));
            }
            return Err(ScriberError::MalformedIdentifier);
        }
        proof {
            assert((limit - d) as int == 10 * (((limit - d) as int) / 10) + (((limit - d) as int)
                % 10));
            assert(acc as int * 10 + d as int <= limit as int);
            assert(digits.take(i + 1 - start).drop_last() =~= digits.take(i - start));
            assert(digits.take(i + 1 - start).last() == digits[i - start]);
        }
        acc = acc * 10 + d;
        i = i + 1;
    }
    proof {
        assert(digits.take(i - start) =~= digits);
        assert(valid_session_id_text(s@));
    }
    if neg {
        if acc == 9223372036854775808u64 {
            Ok(i64::MIN)
        } else {
            Ok(0 - (acc as i64))
        }
    } else {
        Ok(acc as i64)
    }
}

} // verus!
