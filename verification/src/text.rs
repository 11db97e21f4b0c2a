//! Character classes and low-level text helpers shared by the masking passes.

use vstd::prelude::*;
use vstd::std_specs::iter::IteratorSpec;

verus! {

/// Character classes that the detector patterns scan over.
#[derive(Clone, Copy)]
pub enum CharKind {
    /// An ASCII decimal digit.
    Digit,
    /// A digit, space or dash: the raw shape of a payment card number.
    Card,
    /// A digit or dash: the tail of a phone number.
    Phone,
    /// A character allowed in the local part of an e-mail address.
    Local,
    /// A character allowed in the domain of an e-mail address.
    Domain,
    /// An ASCII letter.
    Letter,
}

pub open spec fn is_digit_char(c: char) -> bool {
    '0' <= c && c <= '9'
}

pub open spec fn is_letter_char(c: char) -> bool {
    ('a' <= c && c <= 'z') || ('A' <= c && c <= 'Z')
}

pub open spec fn in_kind(c: char, k: CharKind) -> bool {
    match k {
        CharKind::Digit => is_digit_char(c),
        CharKind::Card => is_digit_char(c) || c == ' ' || c == '-',
        CharKind::Phone => is_digit_char(c) || c == '-',
        CharKind::Local => is_letter_char(c) || is_digit_char(c) || c == '.' || c == '_'
            || c == '%' || c == '+' || c == '-',
        CharKind::Domain => is_letter_char(c) || is_digit_char(c) || c == '.' || c == '-',
        CharKind::Letter => is_letter_char(c),
    }
}

pub fn char_in_kind(c: char, k: CharKind) -> (r: bool)
    ensures
        r == in_kind(c, k),
{
    match k {
        CharKind::Digit => '0' <= c && c <= '9',
        CharKind::Card => ('0' <= c && c <= '9') || c == ' ' || c == '-',
        CharKind::Phone => ('0' <= c && c <= '9') || c == '-',
        CharKind::Local => ('a' <= c && c <= 'z') || ('A' <= c && c <= 'Z') || ('0' <= c && c
            <= '9') || c == '.' || c == '_' || c == '%' || c == '+' || c == '-',
        CharKind::Domain => ('a' <= c && c <= 'z') || ('A' <= c && c <= 'Z') || ('0' <= c && c
            <= '9') || c == '.' || c == '-',
        CharKind::Letter => ('a' <= c && c <= 'z') || ('A' <= c && c <= 'Z'),
    }
}

/// The end of the maximal run of `k`-class characters that starts at `i`.
pub open spec fn kind_run_end(s: Seq<char>, i: int, k: CharKind) -> int
    decreases s.len() - i,
{
    if 0 <= i < s.len() && in_kind(s[i], k) {
        kind_run_end(s, i + 1, k)
    } else {
        i
    }
}

pub proof fn lemma_kind_run_end(s: Seq<char>, i: int, k: CharKind)
    requires
        0 <= i <= s.len(),
    ensures
        i <= kind_run_end(s, i, k) <= s.len(),
        forall|j: int| i <= j < kind_run_end(s, i, k) ==> in_kind(s[j], k),
        kind_run_end(s, i, k) < s.len() ==> !in_kind(s[kind_run_end(s, i, k)], k),
    decreases s.len() - i,
{
    if i < s.len() && in_kind(s[i], k) {
        lemma_kind_run_end(s, i + 1, k);
    }
}

pub fn run_end(s: &Vec<char>, i: usize, k: CharKind) -> (r: usize)
    requires
        i <= s@.len(),
    ensures
        r == kind_run_end(s@, i as int, k),
        i <= r <= s@.len(),
{
    let mut j: usize = i;
    while j < s.len() && char_in_kind(s[j], k)
        invariant
            i <= j <= s@.len(),
            kind_run_end(s@, i as int, k) == kind_run_end(s@, j as int, k),
        decreases s@.len() - j,
    {
        j = j + 1;
    }
    proof {
        lemma_kind_run_end(s@, i as int, k);
    }
    j
}

/// The subsequence of ASCII digits of `s`, in order.
pub open spec fn digit_seq_of(s: Seq<char>) -> Seq<char>
    decreases s.len(),
{
    if s.len() == 0 {
        Seq::empty()
    } else if is_digit_char(s.last()) {
        digit_seq_of(s.drop_last()).push(s.last())
    } else {
        digit_seq_of(s.drop_last())
    }
}

pub proof fn lemma_digit_seq_all_digits(s: Seq<char>)
    ensures
        forall|i: int|
            0 <= i < digit_seq_of(s).len() ==> is_digit_char(#[trigger] digit_seq_of(s)[i]),
        digit_seq_of(s).len() <= s.len(),
    decreases s.len(),
{
    if s.len() > 0 {
        lemma_digit_seq_all_digits(s.drop_last());
    }
}

/// A sequence that is all digits filters to itself.
pub proof fn lemma_digit_seq_of_digits(s: Seq<char>)
    requires
        forall|i: int| 0 <= i < s.len() ==> is_digit_char(#[trigger] s[i]),
    ensures
        digit_seq_of(s) == s,
    decreases s.len(),
{
    if s.len() > 0 {
        lemma_digit_seq_of_digits(s.drop_last());
        assert(digit_seq_of(s.drop_last()).push(s.last()) =~= s);
    }
}

/// Collects the digits of `s[a..b]` into a fresh vector.
pub fn extract_digits(s: &Vec<char>, a: usize, b: usize) -> (out: Vec<char>)
    requires
        a <= b <= s@.len(),
    ensures
        out@ == digit_seq_of(s@.subrange(a as int, b as int)),
{
    let mut out: Vec<char> = Vec::new();
    let mut i: usize = a;
    while i < b
        invariant
            a <= i <= b <= s@.len(),
            out@ == digit_seq_of(s@.subrange(a as int, i as int)),
        decreases b - i,
    {
        proof {
            let u = s@.subrange(a as int, i + 1 as int);
            assert(u.drop_last() =~= s@.subrange(a as int, i as int));
            assert(u.last() == s@[i as int]);
        }
        if '0' <= s[i] && s[i] <= '9' {
            out.push(s[i]);
        }
        i = i + 1;
    }
    out
}

/// Appends `s[a..b]` onto `out`.
pub fn push_range(out: &mut Vec<char>, s: &Vec<char>, a: usize, b: usize)
    requires
        a <= b <= s@.len(),
    ensures
        final(out)@ == old(out)@ + s@.subrange(a as int, b as int),
{
    let mut i: usize = a;
    while i < b
        invariant
            a <= i <= b <= s@.len(),
            out@ == old(out)@ + s@.subrange(a as int, i as int),
        decreases b - i,
    {
        out.push(s[i]);
        proof {
            assert(old(out)@ + s@.subrange(a as int, i + 1 as int) =~= (old(out)@ + s@.subrange(
                a as int,
                i as int,
            )).push(s@[i as int]));
        }
        i = i + 1;
    }
}

/// Decomposes a string into its characters.
pub fn str_to_chars(s: &str) -> (r: Vec<char>)
    ensures
        r@ == s@,
{
    let mut out: Vec<char> = Vec::new();
    let mut it = s.chars();
    loop
        invariant
            out@ + it.remaining() == s@,
            it.decrease() is Some,
        ensures
            out@ == s@,
        decreases it.decrease()->0,
    {
        match it.next() {
            Some(c) => {
                out.push(c);
            },
            None => {
                proof {
                    assert(out@ =~= s@);
                }
                break ;
            },
        }
    }
    out
}

/// Relies on `String: FromIterator<char>`: collecting characters yields the
/// string made of exactly those characters, in order.
#[verifier::external_body]
pub fn chars_to_string(v: &Vec<char>) -> (r: String)
    ensures
        r@ == v@,
{
    v.iter().collect()
}

} // verus!
