//! The pattern masker: an ordered battery of detect-and-replace passes over
//! one text unit.
//!
//! Passes run strictly in the order national ID, payment card, e-mail, phone;
//! each pass scans the output of the previous one, so later, broader patterns
//! never see digit runs that an earlier, more specific rule already redacted.
//! A pass with a checksum validator (ID, card) redacts only checksum-valid
//! candidates; a pass without one (e-mail, phone) redacts every structural
//! match.

use vstd::prelude::*;

use crate::text::{
    char_in_kind, chars_to_string, digit_seq_of, extract_digits, in_kind, is_digit_char,
    kind_run_end, lemma_kind_run_end, push_range, run_end, str_to_chars, CharKind,
};
use crate::validator::{luhn_valid_digits, luhn_valid_vec, spec_is_thai_id, thai_id_vec};

verus! {

/// The six `X` characters that replace the middle digits of a national ID.
pub open spec fn id_fill() -> Seq<char> {
    seq!['X', 'X', 'X', 'X', 'X', 'X']
}

/// The eight `*` characters that replace the middle of a payment card match.
pub open spec fn card_fill() -> Seq<char> {
    seq!['*', '*', '*', '*', '*', '*', '*', '*']
}

/// The national ID pass from position `i` on: every maximal run of exactly
/// 13 digits that passes the checksum becomes first three digits, six `X`,
/// last four digits; all other text is kept as it is.
pub open spec fn id_mask_from(s: Seq<char>, i: int) -> Seq<char>
    decreases s.len() - i,
    via id_mask_from_dec
{
    if i < 0 || i >= s.len() {
        Seq::empty()
    } else if !is_digit_char(s[i]) {
        seq![s[i]] + id_mask_from(s, i + 1)
    } else {
        let j = kind_run_end(s, i, CharKind::Digit);
        let run = s.subrange(i, j);
        if j - i == 13 && spec_is_thai_id(run) {
            run.take(3) + id_fill() + run.skip(9) + id_mask_from(s, j)
        } else {
            run + id_mask_from(s, j)
        }
    }
}

#[via_fn]
proof fn id_mask_from_dec(s: Seq<char>, i: int) {
    if 0 <= i < s.len() {
        lemma_kind_run_end(s, i, CharKind::Digit);
    }
}

/// The position just past the last digit in `s[i..j]`, or `i` when the range
/// holds no digit: a card match is trimmed so that it ends on a digit.
pub open spec fn last_digit_end(s: Seq<char>, i: int, j: int) -> int
    decreases j - i,
{
    if j <= i {
        i
    } else if is_digit_char(s[j - 1]) {
        j
    } else {
        last_digit_end(s, i, j - 1)
    }
}

pub proof fn lemma_last_digit_end(s: Seq<char>, i: int, j: int)
    requires
        0 <= i <= j <= s.len(),
    ensures
        i <= last_digit_end(s, i, j) <= j,
        forall|m: int| last_digit_end(s, i, j) <= m < j ==> !is_digit_char(s[m]),
        last_digit_end(s, i, j) > i ==> is_digit_char(s[last_digit_end(s, i, j) - 1]),
    decreases j - i,
{
    if j > i && !is_digit_char(s[j - 1]) {
        lemma_last_digit_end(s, i, j - 1);
    }
}

/// The payment card pass from position `i` on: a maximal run of digits,
/// spaces and dashes that starts with a digit, trimmed to end on a digit, is
/// a candidate when its raw length is 13 to 20; it is redacted to first four
/// raw characters, eight `*`, last four raw characters exactly when its
/// digits pass the Luhn check with 13 to 19 digits. Everything else is kept.
pub open spec fn card_mask_from(s: Seq<char>, i: int) -> Seq<char>
    decreases s.len() - i,
    via card_mask_from_dec
{
    if i < 0 || i >= s.len() {
        Seq::empty()
    } else if !is_digit_char(s[i]) {
        seq![s[i]] + card_mask_from(s, i + 1)
    } else {
        let ce = kind_run_end(s, i, CharKind::Card);
        let re = last_digit_end(s, i, ce);
        let raw = s.subrange(i, re);
        if 13 <= re - i <= 20 && re - i > 8 && luhn_valid_digits(digit_seq_of(raw)) {
            raw.take(4) + card_fill() + raw.skip(re - i - 4) + s.subrange(re, ce)
                + card_mask_from(s, ce)
        } else {
            s.subrange(i, ce) + card_mask_from(s, ce)
        }
    }
}

#[via_fn]
proof fn card_mask_from_dec(s: Seq<char>, i: int) {
    if 0 <= i < s.len() {
        lemma_kind_run_end(s, i, CharKind::Card);
    }
}

/// The length of the maximal ASCII letter run just after position `p` of `r`.
pub open spec fn letters_after(r: Seq<char>, p: int) -> int {
    kind_run_end(r, p + 1, CharKind::Letter) - (p + 1)
}

/// The greedy end of an e-mail domain inside the domain-class run `r`,
/// scanning dots from position `q - 1` down: the last dot at position 1 or
/// later that is followed by at least two letters ends the domain after
/// those letters. Negative when no dot qualifies.
pub open spec fn dom_end(r: Seq<char>, q: int) -> int
    decreases q,
{
    if q <= 1 {
        -1
    } else if r[q - 1] == '.' && letters_after(r, q - 1) >= 2 {
        q + letters_after(r, q - 1)
    } else {
        dom_end(r, q - 1)
    }
}

pub proof fn lemma_dom_end(r: Seq<char>, q: int)
    requires
        0 <= q <= r.len(),
    ensures
        dom_end(r, q) == -1 || (4 <= dom_end(r, q) <= r.len()),
    decreases q,
{
    if q > 1 {
        lemma_kind_run_end(r, q, CharKind::Letter);
        lemma_dom_end(r, q - 1);
    }
}

/// The e-mail pass from position `i` on: a maximal run of local-part
/// characters directly followed by `@` and a domain with a qualifying dot
/// and top-level label is redacted; the local part keeps at most its first
/// two characters, the domain is kept whole.
pub open spec fn email_mask_from(s: Seq<char>, i: int) -> Seq<char>
    decreases s.len() - i,
    via email_mask_from_dec
{
    if i < 0 || i >= s.len() {
        Seq::empty()
    } else if !in_kind(s[i], CharKind::Local) {
        seq![s[i]] + email_mask_from(s, i + 1)
    } else {
        let q = kind_run_end(s, i, CharKind::Local);
        if q < s.len() && s[q] == '@' {
            let k = kind_run_end(s, q + 1, CharKind::Domain);
            let rdom = s.subrange(q + 1, k);
            let e = dom_end(rdom, rdom.len() as int);
            if e >= 0 {
                let dom = rdom.take(e);
                let masked = if q - i < 2 {
                    seq!['*', '@'] + dom
                } else {
                    s.subrange(i, i + 2) + seq!['*', '*', '*', '@'] + dom
                };
                masked + email_mask_from(s, q + 1 + e)
            } else {
                s.subrange(i, q) + email_mask_from(s, q)
            }
        } else {
            s.subrange(i, q) + email_mask_from(s, q)
        }
    }
}

#[via_fn]
proof fn email_mask_from_dec(s: Seq<char>, i: int) {
    if 0 <= i < s.len() {
        lemma_kind_run_end(s, i, CharKind::Local);
        let q = kind_run_end(s, i, CharKind::Local);
        if q < s.len() && s[q] == '@' {
            lemma_kind_run_end(s, q + 1, CharKind::Domain);
            let k = kind_run_end(s, q + 1, CharKind::Domain);
            let rdom = s.subrange(q + 1, k);
            lemma_dom_end(rdom, rdom.len() as int);
        }
    }
}

/// The phone fill for a ten-digit (mobile) match.
pub open spec fn phone_fill_10() -> Seq<char> {
    seq!['X', 'X', 'X', 'X', 'X']
}

/// The phone fill for a nine-digit (landline) match.
pub open spec fn phone_fill_9() -> Seq<char> {
    seq!['X', 'X', 'X', 'X']
}

/// A phone candidate starts at `i`: a `0`, a digit 1 to 9, then at least 8
/// further digits or dashes.
pub open spec fn phone_cand_at(s: Seq<char>, i: int) -> bool {
    &&& 0 <= i
    &&& i + 1 < s.len()
    &&& s[i] == '0'
    &&& '1' <= s[i + 1] <= '9'
    &&& kind_run_end(s, i + 2, CharKind::Phone) - (i + 2) >= 8
}

/// Where a phone candidate at `i` ends: greedily up to 15 digits or dashes
/// after the first two digits.
pub open spec fn phone_cand_end(s: Seq<char>, i: int) -> int {
    let m = kind_run_end(s, i + 2, CharKind::Phone) - (i + 2);
    if m > 15 {
        i + 2 + 15
    } else {
        i + 2 + m
    }
}

/// The phone pass from position `i` on: a candidate whose digits number
/// exactly 10 keeps three leading and two trailing digits around five `X`;
/// exactly 9 keeps two leading and two trailing digits around four `X`; any
/// other digit count is kept as it is.
pub open spec fn phone_mask_from(s: Seq<char>, i: int) -> Seq<char>
    decreases s.len() - i,
    via phone_mask_from_dec
{
    if i < 0 || i >= s.len() {
        Seq::empty()
    } else if phone_cand_at(s, i) {
        let e = phone_cand_end(s, i);
        let ds = digit_seq_of(s.subrange(i, e));
        if ds.len() == 10 {
            ds.take(3) + phone_fill_10() + ds.skip(8) + phone_mask_from(s, e)
        } else if ds.len() == 9 {
            ds.take(2) + phone_fill_9() + ds.skip(7) + phone_mask_from(s, e)
        } else {
            s.subrange(i, e) + phone_mask_from(s, e)
        }
    } else {
        seq![s[i]] + phone_mask_from(s, i + 1)
    }
}

#[via_fn]
proof fn phone_mask_from_dec(s: Seq<char>, i: int) {
    if 0 <= i < s.len() && phone_cand_at(s, i) {
        lemma_kind_run_end(s, i + 2, CharKind::Phone);
    }
}

/// What `apply_global_standard_masking` computes: the four passes in their
/// fixed order, each over the output of the previous one.
pub open spec fn mask_text(s: Seq<char>) -> Seq<char> {
    phone_mask_from(email_mask_from(card_mask_from(id_mask_from(s, 0), 0), 0), 0)
}

/// Copies `s[a..b]` into a fresh vector.
fn copy_range(s: &Vec<char>, a: usize, b: usize) -> (out: Vec<char>)
    requires
        a <= b <= s@.len(),
    ensures
        out@ == s@.subrange(a as int, b as int),
{
    let mut out: Vec<char> = Vec::new();
    push_range(&mut out, s, a, b);
    out
}

/// The national ID pass over one text unit.
fn id_pass(s: &Vec<char>) -> (out: Vec<char>)
    ensures
        out@ == id_mask_from(s@, 0),
{
    let mut out: Vec<char> = Vec::new();
    let mut i: usize = 0;
    while i < s.len()
        invariant
            0 <= i <= s@.len(),
            id_mask_from(s@, 0) == out@ + id_mask_from(s@, i as int),
        decreases s@.len() - i,
    {
        let ghost pre = out@;
        let ghost gi = i as int;
        if !char_in_kind(s[i], CharKind::Digit) {
            out.push(s[i]);
            proof {
                assert(pre + (seq![s@[gi]] + id_mask_from(s@, gi + 1)) =~= out@ + id_mask_from(
                    s@,
                    gi + 1,
                ));
            }
            i = i + 1;
        } else {
            let j = run_end(s, i, CharKind::Digit);
            let ghost gj = j as int;
            let ghost run = s@.subrange(gi, gj);
            proof {
                lemma_kind_run_end(s@, gi + 1, CharKind::Digit);
            }
            let mut matched = false;
            if j - i == 13 {
                let run_vec = copy_range(s, i, j);
                if thai_id_vec(&run_vec) {
                    matched = true;
                    push_range(&mut out, s, i, i + 3);
                    out.push('X');
                    out.push('X');
                    out.push('X');
                    out.push('X');
                    out.push('X');
                    out.push('X');
                    push_range(&mut out, s, i + 9, j);
                    proof {
                        assert(run.take(3) =~= s@.subrange(gi, gi + 3));
                        assert(run.skip(9) =~= s@.subrange(gi + 9, gj));
                        assert(out@ =~= pre + (run.take(3) + id_fill() + run.skip(9)));
                        assert(pre + ((run.take(3) + id_fill() + run.skip(9)) + id_mask_from(
                            s@,
                            gj,
                        )) =~= out@ + id_mask_from(s@, gj));
                    }
                }
            }
            if !matched {
                push_range(&mut out, s, i, j);
                proof {
                    assert(pre + (run + id_mask_from(s@, gj)) =~= out@ + id_mask_from(s@, gj));
                }
            }
            i = j;
        }
    }
    proof {
        assert(out@ + id_mask_from(s@, s@.len() as int) =~= out@);
    }
    out
}

/// The payment card pass over one text unit.
fn card_pass(s: &Vec<char>) -> (out: Vec<char>)
    ensures
        out@ == card_mask_from(s@, 0),
{
    let mut out: Vec<char> = Vec::new();
    let mut i: usize = 0;
    while i < s.len()
        invariant
            0 <= i <= s@.len(),
            card_mask_from(s@, 0) == out@ + card_mask_from(s@, i as int),
        decreases s@.len() - i,
    {
        let ghost pre = out@;
        let ghost gi = i as int;
        if !char_in_kind(s[i], CharKind::Digit) {
            out.push(s[i]);
            proof {
                assert(pre + (seq![s@[gi]] + card_mask_from(s@, gi + 1)) =~= out@ + card_mask_from(
                    s@,
                    gi + 1,
                ));
            }
            i = i + 1;
        } else {
            let ce = run_end(s, i, CharKind::Card);
            let ghost gce = ce as int;
            proof {
                lemma_kind_run_end(s@, gi + 1, CharKind::Card);
                lemma_last_digit_end(s@, gi, gce);
            }
            let mut re: usize = ce;
            while re > i && !('0' <= s[re - 1] && s[re - 1] <= '9')
                invariant
                    i <= re <= ce <= s@.len(),
                    last_digit_end(s@, gi, gce) == last_digit_end(s@, gi, re as int),
                decreases re,
            {
                re = re - 1;
            }
            let ghost gre = re as int;
            proof {
                assert(gre == last_digit_end(s@, gi, gce));
            }
            let ghost raw = s@.subrange(gi, gre);
            let raw_len = re - i;
            let mut matched = false;
            if 13 <= raw_len && raw_len <= 20 && raw_len > 8 {
                let ds = extract_digits(s, i, re);
                proof {
                    crate::text::lemma_digit_seq_all_digits(raw);
                }
                if luhn_valid_vec(&ds) {
                    matched = true;
                    push_range(&mut out, s, i, i + 4);
                    out.push('*');
                    out.push('*');
                    out.push('*');
                    out.push('*');
                    out.push('*');
                    out.push('*');
                    out.push('*');
                    out.push('*');
                    push_range(&mut out, s, re - 4, re);
                    push_range(&mut out, s, re, ce);
                    proof {
                        assert(raw.take(4) =~= s@.subrange(gi, gi + 4));
                        assert(raw.skip(gre - gi - 4) =~= s@.subrange(gre - 4, gre));
                        assert(out@ =~= pre + (raw.take(4) + card_fill() + raw.skip(gre - gi - 4)
                            + s@.subrange(gre, gce)));
                        assert(pre + ((raw.take(4) + card_fill() + raw.skip(gre - gi - 4)
                            + s@.subrange(gre, gce)) + card_mask_from(s@, gce)) =~= out@
                            + card_mask_from(s@, gce));
                    }
                }
            }
            if !matched {
                push_range(&mut out, s, i, ce);
                proof {
                    assert(pre + (s@.subrange(gi, gce) + card_mask_from(s@, gce)) =~= out@
                        + card_mask_from(s@, gce));
                }
            }
            i = ce;
        }
    }
    proof {
        assert(out@ + card_mask_from(s@, s@.len() as int) =~= out@);
    }
    out
}

/// Finds the greedy domain end inside the domain-class run `r`, if any.
fn find_dom_end(r: &Vec<char>) -> (res: Option<usize>)
    ensures
        match res {
            Some(e) => dom_end(r@, r@.len() as int) == e as int,
            None => dom_end(r@, r@.len() as int) == -1,
        },
{
    let mut q: usize = r.len();
    while q > 1
        invariant
            q <= r@.len(),
            dom_end(r@, r@.len() as int) == dom_end(r@, q as int),
        decreases q,
    {
        if r[q - 1] == '.' {
            let le = run_end(r, q, CharKind::Letter);
            if le - q >= 2 {
                proof {
                    lemma_kind_run_end(r@, q as int, CharKind::Letter);
                    assert(dom_end(r@, q as int) == q + letters_after(r@, q - 1));
                }
                return Some(le);
            }
        }
        q = q - 1;
    }
    None
}

/// The e-mail pass over one text unit.
fn email_pass(s: &Vec<char>) -> (out: Vec<char>)
    ensures
        out@ == email_mask_from(s@, 0),
{
    let mut out: Vec<char> = Vec::new();
    let mut i: usize = 0;
    while i < s.len()
        invariant
            0 <= i <= s@.len(),
            email_mask_from(s@, 0) == out@ + email_mask_from(s@, i as int),
        decreases s@.len() - i,
    {
        let ghost pre = out@;
        let ghost gi = i as int;
        if !char_in_kind(s[i], CharKind::Local) {
            out.push(s[i]);
            proof {
                assert(pre + (seq![s@[gi]] + email_mask_from(s@, gi + 1)) =~= out@
                    + email_mask_from(s@, gi + 1));
            }
            i = i + 1;
        } else {
            let q = run_end(s, i, CharKind::Local);
            let ghost gq = q as int;
            proof {
                lemma_kind_run_end(s@, gi + 1, CharKind::Local);
            }
            let mut plain_to: usize = q;
            let mut matched = false;
            if q < s.len() && s[q] == '@' {
                let k = run_end(s, q + 1, CharKind::Domain);
                let ghost gk = k as int;
                let rdom_vec = copy_range(s, q + 1, k);
                let ghost rdom = s@.subrange(gq + 1, gk);
                proof {
                    lemma_dom_end(rdom, rdom.len() as int);
                }
                match find_dom_end(&rdom_vec) {
                    Some(e) => {
                        matched = true;
                        let ghost ge = e as int;
                        let ghost dom = rdom.take(ge);
                        let ghost masked_piece = if gq - gi < 2 {
                            seq!['*', '@'] + dom
                        } else {
                            s@.subrange(gi, gi + 2) + seq!['*', '*', '*', '@'] + dom
                        };
                        if q - i < 2 {
                            out.push('*');
                            out.push('@');
                        } else {
                            push_range(&mut out, s, i, i + 2);
                            out.push('*');
                            out.push('*');
                            out.push('*');
                            out.push('@');
                        }
                        push_range(&mut out, s, q + 1, q + 1 + e);
                        proof {
                            assert(dom =~= s@.subrange(gq + 1, gq + 1 + ge));
                            assert(out@ =~= pre + masked_piece);
                            assert(pre + (masked_piece + email_mask_from(s@, gq + 1 + ge)) =~= out@
                                + email_mask_from(s@, gq + 1 + ge));
                        }
                        i = q + 1 + e;
                    },
                    None => {
                    },
                }
            }
            if !matched {
                push_range(&mut out, s, i, q);
                proof {
                    assert(pre + (s@.subrange(gi, gq) + email_mask_from(s@, gq)) =~= out@
                        + email_mask_from(s@, gq));
                }
                i = q;
            }
        }
    }
    proof {
        assert(out@ + email_mask_from(s@, s@.len() as int) =~= out@);
    }
    out
}

/// The phone pass over one text unit.
fn phone_pass(s: &Vec<char>) -> (out: Vec<char>)
    ensures
        out@ == phone_mask_from(s@, 0),
{
    let mut out: Vec<char> = Vec::new();
    let mut i: usize = 0;
    while i < s.len()
        invariant
            0 <= i <= s@.len(),
            phone_mask_from(s@, 0) == out@ + phone_mask_from(s@, i as int),
        decreases s@.len() - i,
    {
        let ghost pre = out@;
        let ghost gi = i as int;
        let mut cand = false;
        let mut e: usize = 0;
        if s[i] == '0' && i + 1 < s.len() && '1' <= s[i + 1] && s[i + 1] <= '9' {
            let m_end = run_end(s, i + 2, CharKind::Phone);
            let m = m_end - (i + 2);
            if m >= 8 {
                cand = true;
                let tk = if m > 15 {
                    15
                } else {
                    m
                };
                e = i + 2 + tk;
            }
        }
        if cand {
            let ghost ge = e as int;
            proof {
                assert(phone_cand_at(s@, gi));
                assert(ge == phone_cand_end(s@, gi));
            }
            let ds = extract_digits(s, i, e);
            proof {
                crate::text::lemma_digit_seq_all_digits(s@.subrange(gi, ge));
            }
            let n = ds.len();
            if n == 10 {
                push_range(&mut out, &ds, 0, 3);
                out.push('X');
                out.push('X');
                out.push('X');
                out.push('X');
                out.push('X');
                push_range(&mut out, &ds, 8, 10);
                proof {
                    assert(ds@.take(3) =~= ds@.subrange(0, 3));
                    assert(ds@.skip(8) =~= ds@.subrange(8, 10));
                    assert(out@ =~= pre + (ds@.take(3) + phone_fill_10() + ds@.skip(8)));
                    assert(pre + ((ds@.take(3) + phone_fill_10() + ds@.skip(8)) + phone_mask_from(
                        s@,
                        ge,
                    )) =~= out@ + phone_mask_from(s@, ge));
                }
            } else if n == 9 {
                push_range(&mut out, &ds, 0, 2);
                out.push('X');
                out.push('X');
                out.push('X');
                out.push('X');
                push_range(&mut out, &ds, 7, 9);
                proof {
                    assert(ds@.take(2) =~= ds@.subrange(0, 2));
                    assert(ds@.skip(7) =~= ds@.subrange(7, 9));
                    assert(out@ =~= pre + (ds@.take(2) + phone_fill_9() + ds@.skip(7)));
                    assert(pre + ((ds@.take(2) + phone_fill_9() + ds@.skip(7)) + phone_mask_from(
                        s@,
                        ge,
                    )) =~= out@ + phone_mask_from(s@, ge));
                }
            } else {
                push_range(&mut out, s, i, e);
                proof {
                    assert(pre + (s@.subrange(gi, ge) + phone_mask_from(s@, ge)) =~= out@
                        + phone_mask_from(s@, ge));
                }
            }
            i = e;
        } else {
            out.push(s[i]);
            proof {
                assert(pre + (seq![s@[gi]] + phone_mask_from(s@, gi + 1)) =~= out@
                    + phone_mask_from(s@, gi + 1));
            }
            i = i + 1;
        }
    }
    proof {
        assert(out@ + phone_mask_from(s@, s@.len() as int) =~= out@);
    }
    out
}

/// The number of `@` characters in `s`.
pub open spec fn amp_count(s: Seq<char>) -> int
    decreases s.len(),
{
    if s.len() == 0 {
        0
    } else if s.last() == '@' {
        amp_count(s.drop_last()) + 1
    } else {
        amp_count(s.drop_last())
    }
}

/// The position of the first `@` at or after `i`, or the length when none.
pub open spec fn first_amp(s: Seq<char>, i: int) -> int
    decreases s.len() - i,
{
    if i < 0 || i >= s.len() {
        s.len() as int
    } else if s[i] == '@' {
        i
    } else {
        first_amp(s, i + 1)
    }
}

pub proof fn lemma_first_amp(s: Seq<char>, i: int)
    requires
        0 <= i <= s.len(),
    ensures
        i <= first_amp(s, i) <= s.len(),
        first_amp(s, i) < s.len() ==> s[first_amp(s, i)] == '@',
        forall|j: int| i <= j < first_amp(s, i) ==> s[j] != '@',
    decreases s.len() - i,
{
    if i < s.len() && s[i] != '@' {
        lemma_first_amp(s, i + 1);
    }
}

pub proof fn lemma_amp_count_none(s: Seq<char>)
    requires
        forall|j: int| 0 <= j < s.len() ==> s[j] != '@',
    ensures
        amp_count(s) == 0,
    decreases s.len(),
{
    if s.len() > 0 {
        lemma_amp_count_none(s.drop_last());
    }
}

/// What `mask_email` computes on a candidate: with exactly one `@`, a local
/// part of fewer than 2 characters collapses to `*`; otherwise its first two
/// characters are kept before `***`; the domain is kept whole. Anything
/// without exactly one `@` is returned unchanged.
pub open spec fn spec_mask_email(s: Seq<char>) -> Seq<char> {
    if amp_count(s) == 1 {
        let a = first_amp(s, 0);
        if a < 2 {
            seq!['*', '@'] + s.skip(a + 1)
        } else {
            s.take(2) + seq!['*', '*', '*', '@'] + s.skip(a + 1)
        }
    } else {
        s
    }
}

/// Redacts the local part of an e-mail address, keeping the domain.
pub fn mask_email(email: &str) -> (r: String)
    ensures
        r@ == spec_mask_email(email@),
{
    let chars = str_to_chars(email);
    let n = chars.len();
    let mut fa: usize = 0;
    while fa < n && chars[fa] != '@'
        invariant
            n == chars@.len(),
            0 <= fa <= n,
            first_amp(chars@, 0) == first_amp(chars@, fa as int),
        decreases n - fa,
    {
        fa = fa + 1;
    }
    let mut cnt: usize = 0;
    let mut i: usize = 0;
    while i < n
        invariant
            n == chars@.len(),
            0 <= i <= n,
            cnt <= i,
            cnt == amp_count(chars@.take(i as int)),
        decreases n - i,
    {
        proof {
            let u = chars@.take(i + 1);
            assert(u.drop_last() =~= chars@.take(i as int));
            assert(u.last() == chars@[i as int]);
        }
        if chars[i] == '@' {
            cnt = cnt + 1;
        }
        i = i + 1;
    }
    proof {
        assert(chars@.take(n as int) =~= chars@);
        lemma_first_amp(chars@, 0);
        if fa >= n {
            lemma_amp_count_none(chars@);
        }
    }
    if cnt != 1 {
        return email.to_owned();
    }
    let mut outv: Vec<char> = Vec::new();
    let ghost ga = fa as int;
    if fa < 2 {
        outv.push('*');
        outv.push('@');
        push_range(&mut outv, &chars, fa + 1, n);
        proof {
            assert(chars@.skip(ga + 1) =~= chars@.subrange(ga + 1, n as int));
            assert(outv@ =~= seq!['*', '@'] + chars@.skip(ga + 1));
        }
    } else {
        push_range(&mut outv, &chars, 0, 2);
        outv.push('*');
        outv.push('*');
        outv.push('*');
        outv.push('@');
        push_range(&mut outv, &chars, fa + 1, n);
        proof {
            assert(chars@.take(2) =~= chars@.subrange(0, 2));
            assert(chars@.skip(ga + 1) =~= chars@.subrange(ga + 1, n as int));
            assert(outv@ =~= chars@.take(2) + seq!['*', '*', '*', '@'] + chars@.skip(ga + 1));
        }
    }
    chars_to_string(&outv)
}

/// What `mask_name` computes: a name of at most one character collapses to
/// the placeholder; otherwise its first two characters keep the placeholder
/// as a suffix.
pub open spec fn spec_mask_name(s: Seq<char>) -> Seq<char> {
    if s.len() <= 1 {
        seq!['*', '*', '*']
    } else {
        s.take(2) + seq!['*', '*', '*']
    }
}

/// Redacts a personal name down to at most its first two characters.
pub fn mask_name(name: &str) -> (r: String)
    ensures
        r@ == spec_mask_name(name@),
{
    let chars = str_to_chars(name);
    let mut outv: Vec<char> = Vec::new();
    if chars.len() > 1 {
        push_range(&mut outv, &chars, 0, 2);
        proof {
            assert(chars@.take(2) =~= chars@.subrange(0, 2));
        }
    }
    outv.push('*');
    outv.push('*');
    outv.push('*');
    proof {
        if name@.len() <= 1 {
            assert(outv@ =~= seq!['*', '*', '*']);
        } else {
            assert(outv@ =~= chars@.take(2) + seq!['*', '*', '*']);
        }
    }
    chars_to_string(&outv)
}

/// Applies the four redaction passes, in their fixed order, to one text
/// unit. Total: never fails, and returns the input unchanged when no rule
/// matches anything.
pub fn apply_global_standard_masking(input: &str) -> (r: String)
    ensures
        r@ == mask_text(input@),
{
    let chars = str_to_chars(input);
    let a = id_pass(&chars);
    let b = card_pass(&a);
    let c = email_pass(&b);
    let d = phone_pass(&c);
    chars_to_string(&d)
}

} // verus!
