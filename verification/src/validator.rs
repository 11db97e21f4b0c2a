//! Checksum validators for the two PII shapes that carry one: payment card
//! numbers (Luhn) and national ID numbers (weighted mod-11 check digit).

use vstd::prelude::*;

use crate::text::{digit_seq_of, is_digit_char, lemma_digit_seq_all_digits, str_to_chars};

verus! {

/// The numeric value of an ASCII digit character.
pub open spec fn digit_value(c: char) -> int {
    c as int - '0' as int
}

/// The Luhn contribution of one digit: doubled (minus nine when over nine)
/// on every second position counted from the right.
pub open spec fn luhn_contrib(c: char, dbl: bool) -> int {
    let d = digit_value(c);
    if dbl {
        if 2 * d > 9 {
            2 * d - 9
        } else {
            2 * d
        }
    } else {
        d
    }
}

/// The Luhn sum of the last `j` digits of `ds`, walking right to left and
/// doubling every second digit.
pub open spec fn luhn_sum(ds: Seq<char>, j: int) -> int
    decreases j,
{
    if j <= 0 || j > ds.len() {
        0
    } else {
        luhn_sum(ds, j - 1) + luhn_contrib(ds[ds.len() - j], (j - 1) % 2 == 1)
    }
}

/// A digit sequence is a valid payment card number when it has 13 to 19
/// digits and its Luhn sum is divisible by ten.
pub open spec fn luhn_valid_digits(ds: Seq<char>) -> bool {
    13 <= ds.len() <= 19 && luhn_sum(ds, ds.len() as int) % 10 == 0
}

/// What `is_luhn_valid` decides: the digits embedded in `s` form a valid
/// payment card number.
pub open spec fn spec_luhn_valid(s: Seq<char>) -> bool {
    luhn_valid_digits(digit_seq_of(s))
}

proof fn lemma_luhn_contrib_bounds(c: char, dbl: bool)
    requires
        is_digit_char(c),
    ensures
        0 <= luhn_contrib(c, dbl) <= 9,
{
}

/// Luhn check over a pre-extracted digit vector.
pub fn luhn_valid_vec(ds: &Vec<char>) -> (r: bool)
    requires
        forall|i: int| 0 <= i < ds@.len() ==> is_digit_char(#[trigger] ds@[i]),
    ensures
        r == luhn_valid_digits(ds@),
{
    let n = ds.len();
    if n < 13 || n > 19 {
        return false;
    }
    let mut acc: u32 = 0;
    let mut dbl: bool = false;
    let mut k: usize = 0;
    while k < n
        invariant
            n == ds@.len(),
            13 <= n <= 19,
            0 <= k <= n,
            forall|i: int| 0 <= i < ds@.len() ==> is_digit_char(#[trigger] ds@[i]),
            acc == luhn_sum(ds@, k as int),
            acc <= 9 * k,
            dbl == ((k as int) % 2 == 1),
        decreases n - k,
    {
        let c = ds[n - 1 - k];
        let d: u32 = c as u32 - 48;
        proof {
            lemma_luhn_contrib_bounds(ds@[n - 1 - k], dbl);
            assert(luhn_sum(ds@, k + 1 as int) == luhn_sum(ds@, k as int) + luhn_contrib(
                ds@[ds@.len() - (k + 1)],
                ((k + 1) - 1) % 2 == 1,
            ));
        }
        let piece: u32 = if dbl {
            if 2 * d > 9 {
                2 * d - 9
            } else {
                2 * d
            }
        } else {
            d
        };
        acc = acc + piece;
        dbl = !dbl;
        k = k + 1;
    }
    acc % 10 == 0
}

/// Applies the Luhn checksum over the digits embedded in `s`; false outside
/// the 13 to 19 digit length range or on checksum mismatch.
pub fn is_luhn_valid(s: &str) -> (r: bool)
    ensures
        r == spec_luhn_valid(s@),
{
    let chars = str_to_chars(s);
    let ds = crate::text::extract_digits(&chars, 0, chars.len());
    proof {
        assert(chars@.subrange(0, chars@.len() as int) =~= s@);
        lemma_digit_seq_all_digits(s@);
    }
    luhn_valid_vec(&ds)
}

/// The weighted sum of the first `j` digits of a national ID: digit at
/// position `i` (0-indexed) is weighted `13 - i`.
pub open spec fn id_weight_sum(s: Seq<char>, j: int) -> int
    decreases j,
{
    if j <= 0 || j > s.len() {
        0
    } else {
        id_weight_sum(s, j - 1) + digit_value(s[j - 1]) * (13 - (j - 1))
    }
}

/// What `is_thai_id` decides: exactly 13 digits whose last digit equals the
/// mod-11 check digit of the weighted sum of the first 12.
pub open spec fn spec_is_thai_id(s: Seq<char>) -> bool {
    &&& s.len() == 13
    &&& (forall|i: int| 0 <= i < 13 ==> is_digit_char(#[trigger] s[i]))
    &&& digit_value(s[12]) == (11 - (id_weight_sum(s, 12) % 11)) % 10
}

proof fn lemma_id_weight_sum_bounds(s: Seq<char>, j: int)
    requires
        0 <= j <= s.len(),
        j <= 12,
        forall|i: int| 0 <= i < j ==> is_digit_char(#[trigger] s[i]),
    ensures
        0 <= id_weight_sum(s, j) <= 117 * j,
    decreases j,
{
    if j > 0 {
        lemma_id_weight_sum_bounds(s, j - 1);
        assert(0 <= digit_value(s[j - 1]) * (13 - (j - 1)) <= 117) by (nonlinear_arith)
            requires
                0 <= digit_value(s[j - 1]) <= 9,
                1 <= 13 - (j - 1) <= 13,
        ;
    }
}

/// National ID check over a pre-split character vector.
pub fn thai_id_vec(chars: &Vec<char>) -> (r: bool)
    ensures
        r == spec_is_thai_id(chars@),
{
    if chars.len() != 13 {
        return false;
    }
    let mut i: usize = 0;
    while i < 13
        invariant
            chars@.len() == 13,
            0 <= i <= 13,
            forall|j: int| 0 <= j < i ==> is_digit_char(#[trigger] chars@[j]),
        decreases 13 - i,
    {
        if !('0' <= chars[i] && chars[i] <= '9') {
            return false;
        }
        i = i + 1;
    }
    let mut sum: u32 = 0;
    let mut k: usize = 0;
    while k < 12
        invariant
            chars@.len() == 13,
            forall|j: int| 0 <= j < 13 ==> is_digit_char(#[trigger] chars@[j]),
            0 <= k <= 12,
            sum == id_weight_sum(chars@, k as int),
            sum <= 117 * k,
        decreases 12 - k,
    {
        let d: u32 = chars[k] as u32 - 48;
        let w: u32 = 13 - k as u32;
        proof {
            lemma_id_weight_sum_bounds(chars@, k + 1);
            assert(d * w == digit_value(chars@[k as int]) * (13 - (k as int))) by (nonlinear_arith)
                requires
                    d == digit_value(chars@[k as int]),
                    w == 13 - (k as int),
                    0 <= d <= 9,
                    1 <= w <= 13,
            ;
            assert(d * w <= 117) by (nonlinear_arith)
                requires
                    0 <= d <= 9,
                    1 <= w <= 13,
            ;
        }
        sum = sum + d * w;
        k = k + 1;
    }
    let check: u32 = (11 - (sum % 11)) % 10;
    let last: u32 = chars[12] as u32 - 48;
    last == check
}

/// Requires exactly 13 ASCII digits; valid iff the 13th digit equals the
/// mod-11 check digit computed from the first 12.
pub fn is_thai_id(id: &str) -> (r: bool)
    ensures
        r == spec_is_thai_id(id@),
{
    let chars = str_to_chars(id);
    thai_id_vec(&chars)
}

} // verus!
