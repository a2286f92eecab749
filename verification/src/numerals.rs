//! Decimal numerals: rendering integers as decimal text and reading decimal
//! text back into integers, with a common mathematical model.

use vstd::prelude::*;

verus! {

/// The decimal digit character for a value in 0..=9.
pub open spec fn digit_char(d: int) -> char {
    if d == 0 {
        '0'
    } else if d == 1 {
        '1'
    } else if d == 2 {
        '2'
    } else if d == 3 {
        '3'
    } else if d == 4 {
        '4'
    } else if d == 5 {
        '5'
    } else if d == 6 {
        '6'
    } else if d == 7 {
        '7'
    } else if d == 8 {
        '8'
    } else {
        '9'
    }
}

/// Whether a character is a decimal digit.
pub open spec fn is_digit(c: char) -> bool {
    '0' <= c && c <= '9'
}

/// The numeric value of a digit character.
pub open spec fn digit_val(c: char) -> int {
    c as int - '0' as int
}

/// The decimal numeral of a natural number, without sign and without
/// leading zeros (except for the single digit of zero itself).
pub open spec fn dec_digits(n: nat) -> Seq<char>
    decreases n,
{
    if n < 10 {
        seq![digit_char(n as int)]
    } else {
        dec_digits(n / 10) + seq![digit_char((n % 10) as int)]
    }
}

/// The decimal numeral of an integer: a minus sign for negative values,
/// then the numeral of the magnitude.
pub open spec fn dec_int(v: int) -> Seq<char> {
    if v < 0 {
        seq!['-'] + dec_digits((-v) as nat)
    } else {
        dec_digits(v as nat)
    }
}

/// The value of a string of digit characters, read most significant first.
pub open spec fn digits_val(s: Seq<char>) -> int
    decreases s.len(),
{
    if s.len() == 0 {
        0
    } else {
        digits_val(s.drop_last()) * 10 + digit_val(s.last())
    }
}

/// Whether every character of a string is a decimal digit.
pub open spec fn all_digits(s: Seq<char>) -> bool {
    forall|i: int| 0 <= i < s.len() ==> is_digit(#[trigger] s[i])
}

/// The digit character of a value below ten.
fn digit_to_char(d: u64) -> (c: char)
    requires
        d < 10,
    ensures
        c == digit_char(d as int),
{
    if d == 0 {
        '0'
    } else if d == 1 {
        '1'
    } else if d == 2 {
        '2'
    } else if d == 3 {
        '3'
    } else if d == 4 {
        '4'
    } else if d == 5 {
        '5'
    } else if d == 6 {
        '6'
    } else if d == 7 {
        '7'
    } else if d == 8 {
        '8'
    } else {
        '9'
    }
}

/// The digit character of a value below ten, as a one-character string slice.
fn digit_str(d: u64) -> (r: &'static str)
    requires
        d < 10,
    ensures
        r@ =~= seq![digit_char(d as int)],
{
    proof {
        reveal_strlit("0");
        reveal_strlit("1");
        reveal_strlit("2");
        reveal_strlit("3");
        reveal_strlit("4");
        reveal_strlit("5");
        reveal_strlit("6");
        reveal_strlit("7");
        reveal_strlit("8");
        reveal_strlit("9");
    }
    if d == 0 {
        "0"
    } else if d == 1 {
        "1"
    } else if d == 2 {
        "2"
    } else if d == 3 {
        "3"
    } else if d == 4 {
        "4"
    } else if d == 5 {
        "5"
    } else if d == 6 {
        "6"
    } else if d == 7 {
        "7"
    } else if d == 8 {
        "8"
    } else {
        "9"
    }
}

/// Renders a natural number as its decimal numeral.
pub fn u64_to_string(n: u64) -> (r: String)
    ensures
        r@ == dec_digits(n as nat),
    decreases n,
{
    if n < 10 {
        let r = String::from_str(digit_str(n));
        proof {
            assert(r@ =~= dec_digits(n as nat));
        }
        r
    } else {
        let mut r = u64_to_string(n / 10);
        r.append(digit_str(n % 10));
        proof {
            assert(r@ =~= dec_digits(n as nat));
        }
        r
    }
}

/// Renders a signed integer as its decimal numeral.
pub fn i32_to_string(v: i32) -> (r: String)
    ensures
        r@ == dec_int(v as int),
{
    proof {
        reveal_strlit("-");
    }
    if v < 0 {
        let magnitude: u64 = (-(v as i64)) as u64;
        let mut r = String::from_str("-");
        let digits = u64_to_string(magnitude);
        r.append(digits.as_str());
        proof {
            assert(r@ =~= dec_int(v as int));
        }
        r
    } else {
        let r = u64_to_string(v as u64);
        proof {
            assert(r@ =~= dec_int(v as int));
        }
        r
    }
}

/// Appending one more digit never lowers the value of a numeral.
proof fn lemma_digits_val_monotone(s: Seq<char>, n: int)
    requires
        all_digits(s),
        0 <= n <= s.len(),
    ensures
        digits_val(s.take(n)) <= digits_val(s),
        digits_val(s) >= 0,
    decreases s.len(),
{
    if s.len() == 0 {
    } else {
        assert(is_digit(s.last()));
        assert(digit_val(s.last()) >= 0);
        assert(s.drop_last().take(if n <= s.len() - 1 { n } else { n - 1 }) =~= s.drop_last().take(
            if n <= s.len() - 1 {
                n
            } else {
                n - 1
            },
        ));
        assert(all_digits(s.drop_last())) by {
            assert(forall|i: int|
                0 <= i < s.drop_last().len() ==> #[trigger] s.drop_last()[i] == s[i]);
        }
        lemma_digits_val_monotone(s.drop_last(), if n <= s.len() - 1 {
            n
        } else {
            (s.len() - 1) as int
        });
        if n == s.len() {
            assert(s.take(n) =~= s);
        } else {
            assert(s.take(n) =~= s.drop_last().take(n));
        }
    }
}

/// Reads a run of digit characters as a 16-bit value; `None` when the value
/// does not fit in sixteen bits.
pub fn parse_u16_digits(s: &Vec<char>, start: usize, end: usize) -> (r: Option<u16>)
    requires
        start <= end <= s@.len(),
        all_digits(s@.subrange(start as int, end as int)),
    ensures
        match r {
            Some(v) => v as int == digits_val(s@.subrange(start as int, end as int)),
            None => digits_val(s@.subrange(start as int, end as int)) > u16::MAX,
        },
{
    let ghost whole = s@.subrange(start as int, end as int);
    let mut acc: u32 = 0;
    let mut i: usize = start;
    while i < end
        invariant
            start <= i <= end <= s@.len(),
            all_digits(whole),
            whole == s@.subrange(start as int, end as int),
            acc as int == digits_val(whole.take(i - start)),
            acc <= u16::MAX,
        decreases end - i,
    {
        let c = s[i];
        assert(whole[i - start] == c);
        assert(is_digit(c));
        let d: u32 = (c as u32) - 48;
        assert(d as int == digit_val(c));
        let next: u32 = acc * 10 + d;
        assert(whole.take(i + 1 - start).drop_last() =~= whole.take(i - start));
        assert(whole.take(i + 1 - start).last() == c);
        if next > 65535 {
            proof {
                lemma_digits_val_monotone(whole, i + 1 - start);
            }
            return None;
        }
        acc = next;
        i = i + 1;
    }
    assert(whole.take(end - start) =~= whole);
    Some(acc as u16)
}

/// Reads a run of digit characters as a 32-bit signed value; `None` when the
/// value exceeds `i32::MAX`.
pub fn parse_i32_digits(s: &Vec<char>, start: usize, end: usize) -> (r: Option<i32>)
    requires
        start <= end <= s@.len(),
        all_digits(s@.subrange(start as int, end as int)),
    ensures
        match r {
            Some(v) => v as int == digits_val(s@.subrange(start as int, end as int)),
            None => digits_val(s@.subrange(start as int, end as int)) > i32::MAX,
        },
{
    let ghost whole = s@.subrange(start as int, end as int);
    let mut acc: u64 = 0;
    let mut i: usize = start;
    while i < end
        invariant
            start <= i <= end <= s@.len(),
            all_digits(whole),
            whole == s@.subrange(start as int, end as int),
            acc as int == digits_val(whole.take(i - start)),
            acc <= i32::MAX,
        decreases end - i,
    {
        let c = s[i];
        assert(whole[i - start] == c);
        assert(is_digit(c));
        let d: u64 = (c as u64) - 48;
        assert(d as int == digit_val(c));
        let next: u64 = acc * 10 + d;
        assert(whole.take(i + 1 - start).drop_last() =~= whole.take(i - start));
        assert(whole.take(i + 1 - start).last() == c);
        if next > 2147483647 {
            proof {
                lemma_digits_val_monotone(whole, i + 1 - start);
            }
            return None;
        }
        acc = next;
        i = i + 1;
    }
    assert(whole.take(end - start) =~= whole);
    Some(acc as i32)
}

} // verus!
