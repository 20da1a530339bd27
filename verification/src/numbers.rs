//! Exact decimal timestamps.
//!
//! The analyzer and probe tools print times as decimal seconds
//! (`"1.0"`, `"4.25"`). The pipeline stores times as integer milliseconds,
//! so this module parses such text into milliseconds and formats
//! milliseconds back into decimal-seconds text for filter expressions.

use vstd::prelude::*;

verus! {

pub const DIGIT_ZERO: u8 = 48;

pub const DIGIT_NINE: u8 = 57;

pub const DOT: u8 = 46;

/// Most digits the whole-seconds part may have: any such value fits in
/// `u64` milliseconds with room to spare.
pub const MAX_WHOLE_DIGITS: usize = 15;

pub open spec fn is_digit(b: u8) -> bool {
    DIGIT_ZERO <= b <= DIGIT_NINE
}

pub open spec fn digit_val(b: u8) -> int {
    b - DIGIT_ZERO
}

pub open spec fn all_digits(s: Seq<u8>) -> bool {
    forall|i: int| 0 <= i < s.len() ==> is_digit(#[trigger] s[i])
}

/// Value of a digit string read in base ten.
pub open spec fn digits_val(s: Seq<u8>) -> int
    decreases s.len(),
{
    if s.len() == 0 {
        0
    } else {
        digits_val(s.drop_last()) * 10 + digit_val(s.last())
    }
}

pub open spec fn pow10(n: nat) -> int
    decreases n,
{
    if n == 0 {
        1
    } else {
        10 * pow10((n - 1) as nat)
    }
}

pub proof fn lemma_digits_val_bound(s: Seq<u8>)
    requires
        all_digits(s),
    ensures
        0 <= digits_val(s) < pow10(s.len()),
    decreases s.len(),
{
    if s.len() > 0 {
        assert(all_digits(s.drop_last())) by {
            assert(forall|i: int|
                0 <= i < s.len() - 1 ==> s.drop_last()[i] == #[trigger] s[i]);
        }
        lemma_digits_val_bound(s.drop_last());
        assert(is_digit(s.last()));
    }
}

pub proof fn lemma_pow10_pos(n: nat)
    ensures
        pow10(n) >= 1,
    decreases n,
{
    if n > 0 {
        lemma_pow10_pos((n - 1) as nat);
    }
}

pub proof fn lemma_pow10_mono(a: nat, b: nat)
    requires
        a <= b,
    ensures
        pow10(a) <= pow10(b),
    decreases b,
{
    if a < b {
        lemma_pow10_mono(a, (b - 1) as nat);
        lemma_pow10_pos((b - 1) as nat);
    }
}

/// Appending one digit multiplies by ten and adds it.
pub proof fn lemma_digits_val_snoc(s: Seq<u8>, i: int)
    requires
        0 <= i < s.len(),
    ensures
        digits_val(s.take(i + 1)) == digits_val(s.take(i)) * 10 + digit_val(s[i]),
{
    assert(s.take(i + 1).drop_last() =~= s.take(i));
    assert(s.take(i + 1).last() == s[i]);
}

/// Milliseconds contributed by the fraction digits `f` (the text after the
/// dot): only the first three fraction digits are significant.
pub open spec fn frac_ms(f: Seq<u8>) -> int {
    if f.len() == 0 {
        0
    } else if f.len() == 1 {
        digit_val(f[0]) * 100
    } else if f.len() == 2 {
        digit_val(f[0]) * 100 + digit_val(f[1]) * 10
    } else {
        digit_val(f[0]) * 100 + digit_val(f[1]) * 10 + digit_val(f[2])
    }
}

/// First position of `b` in `s`, if any.
pub open spec fn find_byte(s: Seq<u8>, b: u8) -> Option<int>
    decreases s.len(),
{
    if s.len() == 0 {
        None
    } else if s[0] == b {
        Some(0)
    } else {
        match find_byte(s.drop_first(), b) {
            None => None,
            Some(i) => Some(i + 1),
        }
    }
}

/// `find_byte` returns the first occurrence, or `None` when there is none.
pub proof fn lemma_find_byte(s: Seq<u8>, b: u8)
    ensures
        match find_byte(s, b) {
            Some(i) => 0 <= i < s.len() && s[i] == b && forall|j: int|
                0 <= j < i ==> s[j] != b,
            None => forall|j: int| 0 <= j < s.len() ==> s[j] != b,
        },
    decreases s.len(),
{
    if s.len() > 0 && s[0] != b {
        lemma_find_byte(s.drop_first(), b);
        assert(forall|j: int| 1 <= j < s.len() ==> #[trigger] s[j] == s.drop_first()[j - 1]);
    }
}

/// The seconds text `s`, as integer milliseconds: digits, at most one dot,
/// at least one digit in all, whole part at most [`MAX_WHOLE_DIGITS`] long.
/// Fraction digits beyond the third are read but do not contribute.
pub open spec fn spec_parse_ms(s: Seq<u8>) -> Option<u64> {
    let whole = match find_byte(s, DOT) {
        None => s,
        Some(i) => s.take(i),
    };
    let frac = match find_byte(s, DOT) {
        None => Seq::<u8>::empty(),
        Some(i) => s.skip(i + 1),
    };
    if all_digits(whole) && all_digits(frac) && whole.len() + frac.len() >= 1 && whole.len()
        <= MAX_WHOLE_DIGITS {
        Some((digits_val(whole) * 1000 + frac_ms(frac)) as u64)
    } else {
        None
    }
}

/// Position of the first dot in `s`, scanning left to right.
fn find_dot(s: &[u8]) -> (r: Option<usize>)
    ensures
        match r {
            Some(i) => find_byte(s@, DOT) == Some(i as int),
            None => find_byte(s@, DOT) is None,
        },
{
    let n = s.len();
    let mut i: usize = 0;
    while i < n
        invariant
            n == s@.len(),
            0 <= i <= n,
            forall|j: int| 0 <= j < i ==> s@[j] != DOT,
        decreases n - i,
    {
        if s[i] == DOT {
            proof {
                lemma_find_byte(s@, DOT);
                match find_byte(s@, DOT) {
                    None => {
                        assert(s@[i as int] != DOT);
                    },
                    Some(k) => {
                        if k < i {
                            assert(s@[k] != DOT);
                        } else if k > i {
                            assert(s@[i as int] != DOT);
                        }
                    },
                }
            }
            return Some(i);
        }
        i = i + 1;
    }
    proof {
        lemma_find_byte(s@, DOT);
        if let Some(k) = find_byte(s@, DOT) {
            assert(s@[k] != DOT);
        }
    }
    None
}

/// Base-ten value of the digit text `s`; `None` when `s` holds a non-digit.
fn parse_digits(s: &[u8]) -> (r: Option<u64>)
    requires
        s@.len() <= MAX_WHOLE_DIGITS,
    ensures
        match r {
            Some(v) => all_digits(s@) && v == digits_val(s@),
            None => !all_digits(s@),
        },
{
    let n = s.len();
    let mut val: u64 = 0;
    let mut i: usize = 0;
    while i < n
        invariant
            n == s@.len() <= MAX_WHOLE_DIGITS,
            0 <= i <= n,
            all_digits(s@.take(i as int)),
            val == digits_val(s@.take(i as int)),
            val < pow10(i as nat),
        decreases n - i,
    {
        let b = s[i];
        if b < DIGIT_ZERO || b > DIGIT_NINE {
            assert(!is_digit(s@[i as int]));
            return None;
        }
        proof {
            lemma_digits_val_snoc(s@, i as int);
            lemma_digits_val_bound(s@.take(i as int));
            lemma_pow10_mono(i as nat, 14nat);
            assert(pow10(14nat) == 100_000_000_000_000) by {
                reveal_with_fuel(pow10, 16);
            }
            assert(forall|j: int|
                0 <= j < i + 1 ==> s@.take(i + 1)[j] == #[trigger] s@[j]);
        }
        val = val * 10 + ((b - DIGIT_ZERO) as u64);
        i = i + 1;
    }
    proof {
        assert(s@.take(n as int) =~= s@);
    }
    Some(val)
}

/// Parse decimal-seconds text into integer milliseconds.
///
/// Accepts `"<digits>"`, `"<digits>.<digits>"`, `".<digits>"` and
/// `"<digits>."`; fraction digits beyond the third are ignored. Returns
/// `None` on any other shape, and on a whole part of more than
/// [`MAX_WHOLE_DIGITS`] digits.
pub fn parse_ms(s: &[u8]) -> (r: Option<u64>)
    ensures
        r == spec_parse_ms(s@),
{
    proof {
        lemma_find_byte(s@, DOT);
    }
    let n = s.len();
    let (whole_end, frac_start): (usize, usize) = match find_dot(s) {
        Some(i) => (i, i + 1),
        None => (n, n),
    };
    proof {
        assert(s@.subrange(whole_end as int, whole_end as int) =~= Seq::<u8>::empty());
    }
    let whole = &s[0..whole_end];
    let frac = &s[frac_start..n];
    proof {
        assert(whole@ =~= match find_byte(s@, DOT) {
            None => s@,
            Some(i) => s@.take(i),
        });
        assert(frac@ =~= match find_byte(s@, DOT) {
            None => Seq::<u8>::empty(),
            Some(i) => s@.skip(i + 1),
        });
    }
    if whole_end > MAX_WHOLE_DIGITS {
        return None;
    }
    if whole_end == 0 && frac_start >= n {
        return None;
    }
    let whole_val = match parse_digits(whole) {
        Some(v) => v,
        None => {
            return None;
        },
    };
    let frac_val = match parse_frac(frac) {
        Some(v) => v,
        None => {
            return None;
        },
    };
    proof {
        lemma_digits_val_bound(whole@);
        lemma_pow10_mono(whole@.len(), 15nat);
        assert(pow10(15nat) == 1_000_000_000_000_000) by {
            reveal_with_fuel(pow10, 17);
        }
    }
    Some(whole_val * 1000 + frac_val)
}

pub open spec fn digit_char(d: int) -> char {
    if d == 0 {
        '0'
    } else if d == 1 {
        '1'
    } else if d == 2 {
        '2'
    } else if d == 3 {
        '3'
    } else if d == 4 {
        '4'
    } else if d == 5 {
        '5'
    } else if d == 6 {
        '6'
    } else if d == 7 {
        '7'
    } else if d == 8 {
        '8'
    } else {
        '9'
    }
}

/// Base-ten text of `n`, without leading zeros (`0` prints as `"0"`).
pub open spec fn dec_chars(n: nat) -> Seq<char>
    decreases n,
{
    if n < 10 {
        seq![digit_char(n as int)]
    } else {
        dec_chars(n / 10) + seq![digit_char((n % 10) as int)]
    }
}

/// Decimal-seconds text of `ms` milliseconds, always with three fraction
/// digits: `2500` prints as `"2.500"`.
pub open spec fn ms_chars(ms: nat) -> Seq<char> {
    dec_chars(ms / 1000) + seq![
        '.',
        digit_char(((ms % 1000) / 100) as int),
        digit_char(((ms % 1000) / 10 % 10) as int),
        digit_char((ms % 10) as int),
    ]
}

/// Base-ten text of `n`, with a leading minus sign when `n` is negative.
pub open spec fn int_chars(n: int) -> Seq<char> {
    if n < 0 {
        seq!['-'] + dec_chars((-n) as nat)
    } else {
        dec_chars(n as nat)
    }
}

/// One decimal digit as text.
fn digit_str(d: u64) -> (r: &'static str)
    requires
        d < 10,
    ensures
        r@ == seq![digit_char(d as int)],
{
    proof {
        reveal_strlit("0");
        reveal_strlit("1");
        reveal_strlit("2");
        reveal_strlit("3");
        reveal_strlit("4");
        reveal_strlit("5");
        reveal_strlit("6");
        reveal_strlit("7");
        reveal_strlit("8");
        reveal_strlit("9");
    }
    let r = if d == 0 {
        "0"
    } else if d == 1 {
        "1"
    } else if d == 2 {
        "2"
    } else if d == 3 {
        "3"
    } else if d == 4 {
        "4"
    } else if d == 5 {
        "5"
    } else if d == 6 {
        "6"
    } else if d == 7 {
        "7"
    } else if d == 8 {
        "8"
    } else {
        "9"
    };
    proof {
        assert(r@ =~= seq![digit_char(d as int)]);
    }
    r
}

/// `n` in base-ten text.
pub fn fmt_u64(n: u64) -> (r: String)
    ensures
        r@ == dec_chars(n as nat),
    decreases n,
{
    if n < 10 {
        String::from_str(digit_str(n))
    } else {
        let mut s = fmt_u64(n / 10);
        s.append(digit_str(n % 10));
        s
    }
}

/// `ms` milliseconds as decimal-seconds text with three fraction digits.
pub fn fmt_ms(ms: u64) -> (r: String)
    ensures
        r@ == ms_chars(ms as nat),
{
    let mut s = fmt_u64(ms / 1000);
    s.append(".");
    s.append(digit_str((ms % 1000) / 100));
    s.append(digit_str((ms % 1000) / 10 % 10));
    s.append(digit_str(ms % 10));
    proof {
        reveal_strlit(".");
        assert(s@ =~= ms_chars(ms as nat));
    }
    s
}

/// `n` in base-ten text, with a minus sign when negative.
pub fn fmt_i32(n: i32) -> (r: String)
    ensures
        r@ == int_chars(n as int),
{
    if n < 0 {
        let magnitude: u64 = (-(n as i64)) as u64;
        let mut s = String::from_str("-");
        s.append(fmt_u64(magnitude).as_str());
        proof {
            reveal_strlit("-");
            assert(s@ =~= int_chars(n as int));
        }
        s
    } else {
        fmt_u64(n as u64)
    }
}

/// Millisecond value of the fraction digits; `None` on a non-digit.
fn parse_frac(f: &[u8]) -> (r: Option<u64>)
    ensures
        match r {
            Some(v) => all_digits(f@) && v == frac_ms(f@) && v < 1000,
            None => !all_digits(f@),
        },
{
    let n = f.len();
    let mut i: usize = 0;
    while i < n
        invariant
            n == f@.len(),
            0 <= i <= n,
            all_digits(f@.take(i as int)),
        decreases n - i,
    {
        let b = f[i];
        if b < DIGIT_ZERO || b > DIGIT_NINE {
            assert(!is_digit(f@[i as int]));
            return None;
        }
        proof {
            assert(forall|j: int|
                0 <= j < i + 1 ==> f@.take(i + 1)[j] == #[trigger] f@[j]);
        }
        i = i + 1;
    }
    proof {
        assert(f@.take(n as int) =~= f@);
    }
    if n == 0 {
        Some(0)
    } else if n == 1 {
        Some(((f[0] - DIGIT_ZERO) as u64) * 100)
    } else if n == 2 {
        Some(((f[0] - DIGIT_ZERO) as u64) * 100 + ((f[1] - DIGIT_ZERO) as u64) * 10)
    } else {
        Some(
            ((f[0] - DIGIT_ZERO) as u64) * 100 + ((f[1] - DIGIT_ZERO) as u64) * 10 + ((f[2]
                - DIGIT_ZERO) as u64),
        )
    }
}

} // verus!
