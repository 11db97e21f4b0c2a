//! The library's laws: what the masking passes guarantee, stated over the
//! specification functions and proved once and for all.
//!
//! The first half builds reusable facts: when a pass finds no valid
//! candidate anywhere, it returns its input unchanged. The second half are
//! the headline properties of `mask_text`: what a checksum-valid national
//! ID, a Luhn-valid card number, an e-mail address and a phone number become,
//! that checksum-failing candidates pass through unchanged, and that fully
//! redacted text is a fixed point.

use vstd::prelude::*;

use crate::masker::{
    card_fill, card_mask_from, dom_end, email_mask_from, id_fill, id_mask_from, last_digit_end,
    letters_after, mask_text, phone_cand_at, phone_cand_end, phone_fill_10, phone_fill_9,
    phone_mask_from,
};
use crate::text::{
    digit_seq_of, in_kind, is_digit_char, is_letter_char, kind_run_end, lemma_digit_seq_of_digits,
    lemma_kind_run_end, CharKind,
};
use crate::validator::{luhn_valid_digits, spec_is_thai_id};

verus! {

/// Pins a maximal run: when `s[i..e]` is all `k`-class and `e` is the end of
/// the text or a non-`k` character, the run starting at `i` ends at `e`.
pub proof fn lemma_run_end_is(s: Seq<char>, i: int, k: CharKind, e: int)
    requires
        0 <= i <= e <= s.len(),
        forall|j: int| i <= j < e ==> in_kind(s[j], k),
        e == s.len() || !in_kind(s[e], k),
    ensures
        kind_run_end(s, i, k) == e,
    decreases e - i,
{
    if i < e {
        lemma_run_end_is(s, i + 1, k, e);
    }
}

/// Pins the trim point: when `s[e..j]` holds no digit and `s[e-1]` is a
/// digit (or `e` is back at `i`), the trimmed end is `e`.
pub proof fn lemma_last_digit_end_is(s: Seq<char>, i: int, j: int, e: int)
    requires
        0 <= i <= e <= j <= s.len(),
        forall|m: int| e <= m < j ==> !is_digit_char(s[m]),
        e == i || is_digit_char(s[e - 1]),
    ensures
        last_digit_end(s, i, j) == e,
    decreases j - e,
{
    if j > e {
        lemma_last_digit_end_is(s, i, j - 1, e);
    }
}

/// Digit extraction distributes over concatenation.
pub proof fn lemma_digit_seq_concat(a: Seq<char>, b: Seq<char>)
    ensures
        digit_seq_of(a + b) == digit_seq_of(a) + digit_seq_of(b),
    decreases b.len(),
{
    if b.len() == 0 {
        assert(a + b =~= a);
        assert(digit_seq_of(a) + digit_seq_of(b) =~= digit_seq_of(a));
    } else {
        lemma_digit_seq_concat(a, b.drop_last());
        assert((a + b).drop_last() =~= a + b.drop_last());
        if is_digit_char(b.last()) {
            assert(digit_seq_of(a) + digit_seq_of(b) =~= (digit_seq_of(a) + digit_seq_of(
                b.drop_last(),
            )).push(b.last()));
        }
    }
}

/// An all-digit range of `s` contributes at least its length to the digit
/// count of `s`.
pub proof fn lemma_digit_count_of_run(s: Seq<char>, i: int, j: int)
    requires
        0 <= i <= j <= s.len(),
        forall|m: int| i <= m < j ==> is_digit_char(s[m]),
    ensures
        digit_seq_of(s).len() >= j - i,
{
    let pre = s.subrange(0, i);
    let mid = s.subrange(i, j);
    let post = s.subrange(j, s.len() as int);
    assert(s =~= (pre + mid) + post);
    lemma_digit_seq_concat(pre + mid, post);
    lemma_digit_seq_concat(pre, mid);
    lemma_digit_seq_of_digits(mid);
}

/// No maximal run of exactly 13 digits in `s` passes the national ID
/// checksum.
pub open spec fn id_clean(s: Seq<char>) -> bool {
    forall|i: int|
        0 <= i < s.len() && is_digit_char(s[i]) ==> !(#[trigger] kind_run_end(
            s,
            i,
            CharKind::Digit,
        ) - i == 13 && spec_is_thai_id(s.subrange(i, kind_run_end(s, i, CharKind::Digit))))
}

/// The national ID pass leaves the tail from `i` on unchanged when no
/// valid candidate starts at or after `i`.
pub proof fn lemma_id_pass_clean_from(s: Seq<char>, i: int)
    requires
        0 <= i <= s.len(),
        forall|j: int|
            i <= j < s.len() && is_digit_char(s[j]) ==> !(#[trigger] kind_run_end(
                s,
                j,
                CharKind::Digit,
            ) - j == 13 && spec_is_thai_id(s.subrange(j, kind_run_end(s, j, CharKind::Digit)))),
    ensures
        id_mask_from(s, i) == s.skip(i),
    decreases s.len() - i,
{
    if i == s.len() {
        assert(id_mask_from(s, i) =~= s.skip(i));
    } else if !is_digit_char(s[i]) {
        lemma_id_pass_clean_from(s, i + 1);
        assert(seq![s[i]] + s.skip(i + 1) =~= s.skip(i));
    } else {
        lemma_kind_run_end(s, i, CharKind::Digit);
        let j = kind_run_end(s, i, CharKind::Digit);
        lemma_id_pass_clean_from(s, j);
        assert(s.subrange(i, j) + s.skip(j) =~= s.skip(i));
    }
}

/// The national ID pass leaves a unit with no valid candidate unchanged.
pub proof fn lemma_id_pass_clean(s: Seq<char>, i: int)
    requires
        0 <= i <= s.len(),
        id_clean(s),
    ensures
        id_mask_from(s, i) == s.skip(i),
{
    lemma_id_pass_clean_from(s, i);
}

/// No card-shaped candidate in `s` has 13 to 20 raw characters whose digits
/// pass the Luhn check with 13 to 19 digits.
pub open spec fn card_clean(s: Seq<char>) -> bool {
    forall|i: int|
        0 <= i < s.len() && is_digit_char(s[i]) ==> ({
            let ce = #[trigger] kind_run_end(s, i, CharKind::Card);
            let re = last_digit_end(s, i, ce);
            !(13 <= re - i <= 20 && re - i > 8 && luhn_valid_digits(
                digit_seq_of(s.subrange(i, re)),
            ))
        })
}

/// The payment card pass leaves the tail from `i` on unchanged when no
/// valid candidate starts at or after `i`.
pub proof fn lemma_card_pass_clean_from(s: Seq<char>, i: int)
    requires
        0 <= i <= s.len(),
        forall|j: int|
            i <= j < s.len() && is_digit_char(s[j]) ==> ({
                let ce = #[trigger] kind_run_end(s, j, CharKind::Card);
                let re = last_digit_end(s, j, ce);
                !(13 <= re - j <= 20 && re - j > 8 && luhn_valid_digits(
                    digit_seq_of(s.subrange(j, re)),
                ))
            }),
    ensures
        card_mask_from(s, i) == s.skip(i),
    decreases s.len() - i,
{
    if i == s.len() {
        assert(card_mask_from(s, i) =~= s.skip(i));
    } else if !is_digit_char(s[i]) {
        lemma_card_pass_clean_from(s, i + 1);
        assert(seq![s[i]] + s.skip(i + 1) =~= s.skip(i));
    } else {
        lemma_kind_run_end(s, i, CharKind::Card);
        let ce = kind_run_end(s, i, CharKind::Card);
        lemma_card_pass_clean_from(s, ce);
        assert(s.subrange(i, ce) + s.skip(ce) =~= s.skip(i));
    }
}

/// The payment card pass leaves a unit with no valid candidate unchanged.
pub proof fn lemma_card_pass_clean(s: Seq<char>, i: int)
    requires
        0 <= i <= s.len(),
        card_clean(s),
    ensures
        card_mask_from(s, i) == s.skip(i),
{
    lemma_card_pass_clean_from(s, i);
}

/// Up to the candidate at `p`, the card pass copies the text unchanged: no
/// earlier digit starts a valid candidate, and no card-class run from an
/// earlier digit crosses into `p`.
proof fn lemma_card_pass_before(s: Seq<char>, p: int, i: int)
    requires
        0 <= i <= p <= s.len(),
        forall|j: int|
            0 <= j < p && is_digit_char(s[j]) ==> ({
                let ce = #[trigger] kind_run_end(s, j, CharKind::Card);
                let re = last_digit_end(s, j, ce);
                ce <= p && !(13 <= re - j <= 20 && re - j > 8 && luhn_valid_digits(
                    digit_seq_of(s.subrange(j, re)),
                ))
            }),
    ensures
        card_mask_from(s, i) == s.subrange(i, p) + card_mask_from(s, p),
    decreases p - i,
{
    if i == p {
        assert(s.subrange(p, p) + card_mask_from(s, p) =~= card_mask_from(s, p));
    } else if !is_digit_char(s[i]) {
        lemma_card_pass_before(s, p, i + 1);
        assert(s.subrange(i, p) + card_mask_from(s, p) =~= seq![s[i]] + (s.subrange(i + 1, p)
            + card_mask_from(s, p)));
    } else {
        lemma_kind_run_end(s, i, CharKind::Card);
        lemma_kind_run_end(s, i + 1, CharKind::Card);
        let ce = kind_run_end(s, i, CharKind::Card);
        lemma_card_pass_before(s, p, ce);
        assert(s.subrange(i, p) + card_mask_from(s, p) =~= s.subrange(i, ce) + (s.subrange(ce, p)
            + card_mask_from(s, p)));
    }
}

/// The general payment card law, for a match embedded in surrounding text.
/// The card-class run at `p` ends at `ce` and trims to its last digit at
/// `re`; when the raw match `s[p..re]` has 13 to 20 characters whose digits
/// pass the Luhn check with 13 to 19 digits, it is replaced in place by its
/// first and last 4 raw characters around eight `*`, and everything around
/// it is kept, provided the ID pass finds no valid run in `s`, no earlier
/// digit starts or reaches a card candidate, no later digit starts a valid
/// one, and no e-mail or phone candidate survives in the result.
pub proof fn lemma_mask_embedded_card(s: Seq<char>, p: int, re: int, ce: int)
    requires
        0 <= p < re <= ce <= s.len(),
        forall|j: int| p <= j < ce ==> in_kind(#[trigger] s[j], CharKind::Card),
        ce == s.len() || !in_kind(s[ce], CharKind::Card),
        forall|j: int| re <= j < ce ==> !is_digit_char(#[trigger] s[j]),
        is_digit_char(s[p]),
        is_digit_char(s[re - 1]),
        13 <= re - p <= 20,
        luhn_valid_digits(digit_seq_of(s.subrange(p, re))),
        forall|j: int|
            0 <= j < p && is_digit_char(s[j]) ==> ({
                let cej = #[trigger] kind_run_end(s, j, CharKind::Card);
                let rej = last_digit_end(s, j, cej);
                cej <= p && !(13 <= rej - j <= 20 && rej - j > 8 && luhn_valid_digits(
                    digit_seq_of(s.subrange(j, rej)),
                ))
            }),
        forall|j: int|
            ce <= j < s.len() && is_digit_char(s[j]) ==> ({
                let cej = #[trigger] kind_run_end(s, j, CharKind::Card);
                let rej = last_digit_end(s, j, cej);
                !(13 <= rej - j <= 20 && rej - j > 8 && luhn_valid_digits(
                    digit_seq_of(s.subrange(j, rej)),
                ))
            }),
        id_clean(s),
        email_clean(
            s.take(p) + (s.subrange(p, re).take(4) + card_fill() + s.subrange(p, re).skip(
                re - p - 4,
            )) + s.skip(re),
        ),
        phone_clean(
            s.take(p) + (s.subrange(p, re).take(4) + card_fill() + s.subrange(p, re).skip(
                re - p - 4,
            )) + s.skip(re),
        ),
    ensures
        mask_text(s) == s.take(p) + (s.subrange(p, re).take(4) + card_fill() + s.subrange(
            p,
            re,
        ).skip(re - p - 4)) + s.skip(re),
{
    let raw = s.subrange(p, re);
    let m = s.take(p) + (raw.take(4) + card_fill() + raw.skip(re - p - 4)) + s.skip(re);
    lemma_id_pass_clean(s, 0);
    assert(s.skip(0) =~= s);
    lemma_card_pass_before(s, p, 0);
    assert(s.subrange(0, p) =~= s.take(p));
    lemma_run_end_is(s, p, CharKind::Card, ce);
    lemma_last_digit_end_is(s, p, ce, re);
    lemma_card_pass_clean_from(s, ce);
    assert(card_mask_from(s, p) == raw.take(4) + card_fill() + raw.skip(re - p - 4) + s.subrange(
        re,
        ce,
    ) + s.skip(ce));
    assert(s.subrange(re, ce) + s.skip(ce) =~= s.skip(re));
    assert(card_mask_from(s, 0) =~= m);
    lemma_email_pass_clean(m, 0);
    assert(m.skip(0) =~= m);
    lemma_phone_pass_clean(m, 0);
}

/// Every `@` in `s` lacks a local part directly before it, so no e-mail
/// candidate exists.
pub open spec fn email_clean(s: Seq<char>) -> bool {
    forall|q: int|
        0 <= q < s.len() && #[trigger] s[q] == '@' ==> (q == 0 || !in_kind(
            s[q - 1],
            CharKind::Local,
        ))
}

/// The e-mail pass leaves the tail from `i` on unchanged when every `@`
/// after `i` lacks a local part directly before it.
pub proof fn lemma_email_pass_clean_from(s: Seq<char>, i: int)
    requires
        0 <= i <= s.len(),
        forall|q: int|
            i < q < s.len() && #[trigger] s[q] == '@' ==> !in_kind(s[q - 1], CharKind::Local),
    ensures
        email_mask_from(s, i) == s.skip(i),
    decreases s.len() - i,
{
    if i == s.len() {
        assert(email_mask_from(s, i) =~= s.skip(i));
    } else if !in_kind(s[i], CharKind::Local) {
        lemma_email_pass_clean_from(s, i + 1);
        assert(seq![s[i]] + s.skip(i + 1) =~= s.skip(i));
    } else {
        lemma_kind_run_end(s, i, CharKind::Local);
        let q = kind_run_end(s, i, CharKind::Local);
        if q < s.len() && s[q] == '@' {
            assert(in_kind(s[q - 1], CharKind::Local));
            assert(false);
        }
        lemma_email_pass_clean_from(s, q);
        assert(s.subrange(i, q) + s.skip(q) =~= s.skip(i));
    }
}

/// The e-mail pass leaves a unit with no candidate unchanged.
pub proof fn lemma_email_pass_clean(s: Seq<char>, i: int)
    requires
        0 <= i <= s.len(),
        email_clean(s),
    ensures
        email_mask_from(s, i) == s.skip(i),
{
    lemma_email_pass_clean_from(s, i);
}

/// Every phone-shaped candidate in `s` strips to a digit count other than
/// 9 or 10.
pub open spec fn phone_clean(s: Seq<char>) -> bool {
    forall|i: int|
        #[trigger] phone_cand_at(s, i) ==> ({
            let ds = digit_seq_of(s.subrange(i, phone_cand_end(s, i)));
            ds.len() != 10 && ds.len() != 9
        })
}

/// The phone pass leaves the tail from `i` on unchanged when no candidate
/// at or after `i` strips to 9 or 10 digits.
pub proof fn lemma_phone_pass_clean_from(s: Seq<char>, i: int)
    requires
        0 <= i <= s.len(),
        forall|j: int|
            j >= i && #[trigger] phone_cand_at(s, j) ==> ({
                let ds = digit_seq_of(s.subrange(j, phone_cand_end(s, j)));
                ds.len() != 10 && ds.len() != 9
            }),
    ensures
        phone_mask_from(s, i) == s.skip(i),
    decreases s.len() - i,
{
    if i == s.len() {
        assert(phone_mask_from(s, i) =~= s.skip(i));
    } else if phone_cand_at(s, i) {
        lemma_kind_run_end(s, i + 2, CharKind::Phone);
        let e = phone_cand_end(s, i);
        lemma_phone_pass_clean_from(s, e);
        assert(s.subrange(i, e) + s.skip(e) =~= s.skip(i));
    } else {
        lemma_phone_pass_clean_from(s, i + 1);
        assert(seq![s[i]] + s.skip(i + 1) =~= s.skip(i));
    }
}

/// The phone pass leaves a unit with no valid candidate unchanged.
pub proof fn lemma_phone_pass_clean(s: Seq<char>, i: int)
    requires
        0 <= i <= s.len(),
        phone_clean(s),
    ensures
        phone_mask_from(s, i) == s.skip(i),
{
    lemma_phone_pass_clean_from(s, i);
}

/// The masked form of a national ID run, first 3 digits, six `X`, last 4
/// digits, is fully redacted: each of the four passes leaves it unchanged,
/// so the whole battery does too.
pub proof fn lemma_masked_id_form_fixed(s: Seq<char>)
    requires
        s.len() == 13,
        forall|i: int| 0 <= i < 13 ==> is_digit_char(#[trigger] s[i]),
    ensures
        id_mask_from(s.take(3) + id_fill() + s.skip(9), 0) == s.take(3) + id_fill() + s.skip(9),
        card_mask_from(s.take(3) + id_fill() + s.skip(9), 0) == s.take(3) + id_fill() + s.skip(9),
        email_mask_from(s.take(3) + id_fill() + s.skip(9), 0) == s.take(3) + id_fill() + s.skip(9),
        phone_mask_from(s.take(3) + id_fill() + s.skip(9), 0) == s.take(3) + id_fill() + s.skip(9),
        mask_text(s.take(3) + id_fill() + s.skip(9)) == s.take(3) + id_fill() + s.skip(9),
{
    let m = s.take(3) + id_fill() + s.skip(9);
    assert(m.len() == 13);
    assert(forall|i: int| 0 <= i < 3 ==> m[i] == s[i]);
    assert(forall|i: int| 3 <= i < 9 ==> m[i] == 'X');
    assert(forall|i: int| 9 <= i < 13 ==> m[i] == s[i]);
    assert(id_clean(m)) by {
        assert forall|i: int|
            0 <= i < m.len() && is_digit_char(m[i]) implies !(#[trigger] kind_run_end(
            m,
            i,
            CharKind::Digit,
        ) - i == 13 && spec_is_thai_id(
            m.subrange(i, kind_run_end(m, i, CharKind::Digit)),
        )) by {
            if i < 3 {
                lemma_run_end_is(m, i, CharKind::Digit, 3);
            } else if i < 9 {
                assert(m[i] == 'X');
            } else {
                lemma_run_end_is(m, i, CharKind::Digit, 13);
            }
        }
    }
    lemma_id_pass_clean(m, 0);
    assert(m.skip(0) =~= m);
    assert(card_clean(m)) by {
        assert forall|i: int| 0 <= i < m.len() && is_digit_char(m[i]) implies ({
            let ce = #[trigger] kind_run_end(m, i, CharKind::Card);
            let re = last_digit_end(m, i, ce);
            !(13 <= re - i <= 20 && re - i > 8 && luhn_valid_digits(
                digit_seq_of(m.subrange(i, re)),
            ))
        }) by {
            if i < 3 {
                lemma_run_end_is(m, i, CharKind::Card, 3);
                lemma_last_digit_end_is(m, i, 3, 3);
            } else if i < 9 {
                assert(m[i] == 'X');
            } else {
                lemma_run_end_is(m, i, CharKind::Card, 13);
                lemma_last_digit_end_is(m, i, 13, 13);
            }
        }
    }
    lemma_card_pass_clean(m, 0);
    assert(email_clean(m)) by {
        assert(forall|q: int| 0 <= q < m.len() ==> m[q] != '@');
    }
    lemma_email_pass_clean(m, 0);
    assert(phone_clean(m)) by {
        assert forall|i: int| #[trigger] phone_cand_at(m, i) implies false by {
            assert(is_digit_char(m[i]));
            assert(i < 3 || 9 <= i < 12);
            if i < 2 {
                lemma_run_end_is(m, i + 2, CharKind::Phone, 3);
            } else if i == 2 {
                lemma_run_end_is(m, i + 2, CharKind::Phone, 4);
            } else {
                lemma_run_end_is(m, i + 2, CharKind::Phone, 13);
            }
        }
    }
    lemma_phone_pass_clean(m, 0);
}

/// A checksum-valid run of exactly 13 digits, masked, keeps its first 3 and
/// last 4 digits around six `X`; no later pass touches the result.
pub proof fn lemma_mask_valid_national_id(s: Seq<char>)
    requires
        s.len() == 13,
        forall|i: int| 0 <= i < 13 ==> is_digit_char(#[trigger] s[i]),
        spec_is_thai_id(s),
    ensures
        mask_text(s) == s.take(3) + id_fill() + s.skip(9),
{
    let m = s.take(3) + id_fill() + s.skip(9);
    lemma_run_end_is(s, 0, CharKind::Digit, 13);
    assert(s.subrange(0, 13) =~= s);
    assert(id_mask_from(s, 13) =~= Seq::<char>::empty());
    assert(id_mask_from(s, 0) =~= m);
    lemma_masked_id_form_fixed(s);
}

/// No checksum-valid maximal run of exactly 13 digits starts anywhere in
/// `s` outside the run beginning at `p`.
pub open spec fn id_clean_except(s: Seq<char>, p: int) -> bool {
    forall|j: int|
        0 <= j < s.len() && is_digit_char(s[j]) && !(p <= j < p + 13) ==> !(#[trigger]
        kind_run_end(s, j, CharKind::Digit) - j == 13 && spec_is_thai_id(
            s.subrange(j, kind_run_end(s, j, CharKind::Digit)),
        ))
}

/// Up to the candidate at `p`, the ID pass copies the text unchanged: no
/// earlier run masks, and no run crosses into `p`.
proof fn lemma_id_pass_before(s: Seq<char>, p: int, i: int)
    requires
        0 <= i <= p,
        p + 13 <= s.len(),
        forall|j: int| p <= j < p + 13 ==> is_digit_char(#[trigger] s[j]),
        p == 0 || !is_digit_char(s[p - 1]),
        id_clean_except(s, p),
    ensures
        id_mask_from(s, i) == s.subrange(i, p) + id_mask_from(s, p),
    decreases p - i,
{
    if i == p {
        assert(s.subrange(p, p) + id_mask_from(s, p) =~= id_mask_from(s, p));
    } else if !is_digit_char(s[i]) {
        lemma_id_pass_before(s, p, i + 1);
        assert(s.subrange(i, p) + id_mask_from(s, p) =~= seq![s[i]] + (s.subrange(i + 1, p)
            + id_mask_from(s, p)));
    } else {
        lemma_kind_run_end(s, i, CharKind::Digit);
        lemma_kind_run_end(s, i + 1, CharKind::Digit);
        let j = kind_run_end(s, i, CharKind::Digit);
        assert(j <= p - 1) by {
            if j > p - 1 {
                assert(is_digit_char(s[p - 1]));
            }
        }
        lemma_id_pass_before(s, p, j);
        assert(s.subrange(i, p) + id_mask_from(s, p) =~= s.subrange(i, j) + (s.subrange(j, p)
            + id_mask_from(s, p)));
    }
}

/// The general national ID law, for a run embedded in surrounding text: a
/// checksum-valid maximal run of exactly 13 digits starting at `p` is
/// replaced in place by its first 3 digits, six `X` and last 4 digits, and
/// everything around it is kept, provided no other pass finds a valid
/// candidate in the redacted text and no other valid ID run occurs.
pub proof fn lemma_mask_embedded_national_id(s: Seq<char>, p: int)
    requires
        0 <= p,
        p + 13 <= s.len(),
        forall|j: int| p <= j < p + 13 ==> is_digit_char(#[trigger] s[j]),
        spec_is_thai_id(s.subrange(p, p + 13)),
        p == 0 || !is_digit_char(s[p - 1]),
        p + 13 == s.len() || !is_digit_char(s[p + 13]),
        id_clean_except(s, p),
        card_clean(
            s.take(p) + (s.subrange(p, p + 13).take(3) + id_fill() + s.subrange(p, p + 13).skip(
                9,
            )) + s.skip(p + 13),
        ),
        email_clean(
            s.take(p) + (s.subrange(p, p + 13).take(3) + id_fill() + s.subrange(p, p + 13).skip(
                9,
            )) + s.skip(p + 13),
        ),
        phone_clean(
            s.take(p) + (s.subrange(p, p + 13).take(3) + id_fill() + s.subrange(p, p + 13).skip(
                9,
            )) + s.skip(p + 13),
        ),
    ensures
        mask_text(s) == s.take(p) + (s.subrange(p, p + 13).take(3) + id_fill() + s.subrange(
            p,
            p + 13,
        ).skip(9)) + s.skip(p + 13),
{
    let d = s.subrange(p, p + 13);
    let m = s.take(p) + (d.take(3) + id_fill() + d.skip(9)) + s.skip(p + 13);
    lemma_id_pass_before(s, p, 0);
    assert(s.subrange(0, p) =~= s.take(p));
    lemma_run_end_is(s, p, CharKind::Digit, p + 13);
    lemma_id_pass_clean_from(s, p + 13);
    assert(id_mask_from(s, p) == d.take(3) + id_fill() + d.skip(9) + s.skip(p + 13));
    assert(id_mask_from(s, 0) =~= m);
    lemma_card_pass_clean(m, 0);
    assert(m.skip(0) =~= m);
    lemma_email_pass_clean(m, 0);
    lemma_phone_pass_clean(m, 0);
}

/// A run of exactly 13 digits that fails the ID checksum is not redacted by
/// any pass, provided its digits also fail the Luhn check and it does not
/// end in a ten-digit phone-shaped tail.
pub proof fn lemma_mask_invalid_national_id(s: Seq<char>)
    requires
        s.len() == 13,
        forall|i: int| 0 <= i < 13 ==> is_digit_char(#[trigger] s[i]),
        !spec_is_thai_id(s),
        !luhn_valid_digits(s),
        !(s[3] == '0' && '1' <= s[4] <= '9'),
    ensures
        mask_text(s) == s,
{
    lemma_run_end_is(s, 0, CharKind::Digit, 13);
    assert(s.subrange(0, 13) =~= s);
    assert(id_mask_from(s, 13) =~= Seq::<char>::empty());
    assert(id_mask_from(s, 0) =~= s);
    lemma_run_end_is(s, 0, CharKind::Card, 13);
    lemma_last_digit_end_is(s, 0, 13, 13);
    lemma_digit_seq_of_digits(s);
    assert(card_mask_from(s, 13) =~= Seq::<char>::empty());
    assert(card_mask_from(s, 0) =~= s);
    assert(email_clean(s)) by {
        assert(forall|q: int| 0 <= q < s.len() ==> s[q] != '@');
    }
    lemma_email_pass_clean(s, 0);
    assert(s.skip(0) =~= s);
    assert(phone_clean(s)) by {
        assert forall|i: int| #[trigger] phone_cand_at(s, i) implies ({
            let ds = digit_seq_of(s.subrange(i, phone_cand_end(s, i)));
            ds.len() != 10 && ds.len() != 9
        }) by {
            lemma_run_end_is(s, i + 2, CharKind::Phone, 13);
            assert(i <= 3);
            assert(i != 3);
            assert(phone_cand_end(s, i) == 13);
            lemma_digit_seq_of_digits(s.subrange(i, 13));
        }
    }
    lemma_phone_pass_clean(s, 0);
}

/// A Luhn-valid all-digit run of 13 to 19 digits, masked, keeps its first
/// and last 4 digits around eight `*`; no later pass touches the result.
/// A 13-digit run must not also be a checksum-valid national ID, which the
/// earlier pass would redact first.
pub proof fn lemma_mask_valid_card(s: Seq<char>)
    requires
        13 <= s.len() <= 19,
        forall|i: int| 0 <= i < s.len() ==> is_digit_char(#[trigger] s[i]),
        luhn_valid_digits(s),
        s.len() == 13 ==> !spec_is_thai_id(s),
    ensures
        mask_text(s) == s.take(4) + card_fill() + s.skip(s.len() - 4),
{
    let n = s.len() as int;
    let m = s.take(4) + card_fill() + s.skip(n - 4);
    assert(m.len() == 16);
    assert(forall|i: int| 0 <= i < 4 ==> m[i] == s[i]);
    assert(forall|i: int| 4 <= i < 12 ==> m[i] == '*');
    assert(forall|i: int| 12 <= i < 16 ==> m[i] == s[n - 16 + i]);
    lemma_run_end_is(s, 0, CharKind::Digit, n);
    assert(s.subrange(0, n) =~= s);
    assert(id_mask_from(s, n) =~= Seq::<char>::empty());
    assert(id_mask_from(s, 0) =~= s);
    lemma_run_end_is(s, 0, CharKind::Card, n);
    lemma_last_digit_end_is(s, 0, n, n);
    lemma_digit_seq_of_digits(s);
    assert(card_mask_from(s, n) =~= Seq::<char>::empty());
    assert(s.subrange(n, n) =~= Seq::<char>::empty());
    assert(card_mask_from(s, 0) =~= m);
    assert(email_clean(m)) by {
        assert(forall|q: int| 0 <= q < m.len() ==> m[q] != '@');
    }
    lemma_email_pass_clean(m, 0);
    assert(m.skip(0) =~= m);
    assert(phone_clean(m)) by {
        assert forall|i: int| #[trigger] phone_cand_at(m, i) implies false by {
            assert(is_digit_char(m[i]));
            assert(i < 4 || 12 <= i < 15);
            if i < 2 {
                lemma_run_end_is(m, i + 2, CharKind::Phone, 4);
            } else if i < 4 {
                lemma_run_end_is(m, i + 2, CharKind::Phone, i + 2);
            } else {
                lemma_run_end_is(m, i + 2, CharKind::Phone, 16);
            }
        }
    }
    lemma_phone_pass_clean(m, 0);
}

/// A run never reaches past a character outside its class.
pub proof fn lemma_run_end_at_most(s: Seq<char>, i: int, k: CharKind, e: int)
    requires
        0 <= i <= e < s.len(),
        !in_kind(s[e], k),
    ensures
        kind_run_end(s, i, k) <= e,
{
    lemma_kind_run_end(s, i, k);
}

/// A Luhn-valid card match written with spaces or dashes, 13 to 20 raw
/// characters framed by digits, masked, keeps its first and last 4 raw
/// characters around eight `*`; no other pass touches the result. No run of
/// 13 consecutive digits may occur inside it, which the ID pass would
/// inspect first.
pub proof fn lemma_mask_valid_card_with_separators(s: Seq<char>)
    requires
        13 <= s.len() <= 20,
        forall|j: int| 0 <= j < s.len() ==> in_kind(#[trigger] s[j], CharKind::Card),
        is_digit_char(s[0]),
        is_digit_char(s[s.len() - 1]),
        forall|i: int|
            0 <= i < s.len() && is_digit_char(s[i]) ==> #[trigger] kind_run_end(
                s,
                i,
                CharKind::Digit,
            ) - i < 13,
        luhn_valid_digits(digit_seq_of(s)),
    ensures
        mask_text(s) == s.take(4) + card_fill() + s.skip(s.len() - 4),
{
    let n = s.len() as int;
    let m = s.take(4) + card_fill() + s.skip(n - 4);
    assert(m.len() == 16);
    assert(forall|i: int| 0 <= i < 4 ==> m[i] == s[i]);
    assert(forall|i: int| 4 <= i < 12 ==> m[i] == '*');
    assert(forall|i: int| 12 <= i < 16 ==> m[i] == s[n - 16 + i]);
    assert(id_clean(s));
    lemma_id_pass_clean(s, 0);
    assert(s.skip(0) =~= s);
    lemma_run_end_is(s, 0, CharKind::Card, n);
    lemma_last_digit_end_is(s, 0, n, n);
    assert(card_mask_from(s, n) =~= Seq::<char>::empty());
    assert(s.subrange(n, n) =~= Seq::<char>::empty());
    assert(s.subrange(0, n) =~= s);
    assert(card_mask_from(s, 0) =~= m);
    assert(email_clean(m)) by {
        assert(forall|q: int| 0 <= q < m.len() ==> m[q] != '@');
    }
    lemma_email_pass_clean(m, 0);
    assert(m.skip(0) =~= m);
    assert(phone_clean(m)) by {
        assert forall|i: int| #[trigger] phone_cand_at(m, i) implies false by {
            assert(is_digit_char(m[i]));
            assert(i < 4 || 12 <= i < 15);
            lemma_kind_run_end(m, i + 2, CharKind::Phone);
            if i + 2 <= 4 {
                lemma_run_end_at_most(m, i + 2, CharKind::Phone, 4);
            }
        }
    }
    lemma_phone_pass_clean(m, 0);
}

/// An all-digit run of 13 to 19 digits whose digits fail the Luhn check is
/// not redacted by any pass, provided it is not a checksum-valid national
/// ID and does not end in a ten-digit phone-shaped tail.
pub proof fn lemma_mask_invalid_card(s: Seq<char>)
    requires
        13 <= s.len() <= 19,
        forall|i: int| 0 <= i < s.len() ==> is_digit_char(#[trigger] s[i]),
        !luhn_valid_digits(s),
        s.len() == 13 ==> !spec_is_thai_id(s),
        !(s[s.len() - 10] == '0' && '1' <= s[s.len() - 9] <= '9'),
    ensures
        mask_text(s) == s,
{
    let n = s.len() as int;
    lemma_run_end_is(s, 0, CharKind::Digit, n);
    assert(s.subrange(0, n) =~= s);
    assert(id_mask_from(s, n) =~= Seq::<char>::empty());
    assert(id_mask_from(s, 0) =~= s);
    lemma_run_end_is(s, 0, CharKind::Card, n);
    lemma_last_digit_end_is(s, 0, n, n);
    lemma_digit_seq_of_digits(s);
    assert(card_mask_from(s, n) =~= Seq::<char>::empty());
    assert(card_mask_from(s, 0) =~= s);
    assert(email_clean(s)) by {
        assert(forall|q: int| 0 <= q < s.len() ==> s[q] != '@');
    }
    lemma_email_pass_clean(s, 0);
    assert(s.skip(0) =~= s);
    assert(phone_clean(s)) by {
        assert forall|i: int| #[trigger] phone_cand_at(s, i) implies ({
            let ds = digit_seq_of(s.subrange(i, phone_cand_end(s, i)));
            ds.len() != 10 && ds.len() != 9
        }) by {
            lemma_run_end_is(s, i + 2, CharKind::Phone, n);
            let e = phone_cand_end(s, i);
            lemma_digit_seq_of_digits(s.subrange(i, e));
            assert(i != n - 10);
        }
    }
    lemma_phone_pass_clean(s, 0);
}

/// Digit extraction of a range never exceeds that of the whole.
pub proof fn lemma_digit_count_subrange(s: Seq<char>, i: int, j: int)
    requires
        0 <= i <= j <= s.len(),
    ensures
        digit_seq_of(s.subrange(i, j)).len() <= digit_seq_of(s).len(),
{
    let pre = s.subrange(0, i);
    let mid = s.subrange(i, j);
    let post = s.subrange(j, s.len() as int);
    assert(s =~= (pre + mid) + post);
    lemma_digit_seq_concat(pre + mid, post);
    lemma_digit_seq_concat(pre, mid);
}

/// A phone-shaped match whose digits number exactly 10 keeps three leading
/// and two trailing digits around five `X`; exactly 9, two leading and two
/// trailing digits around four `X`; any other count below the card window
/// passes through unchanged. No other pass touches the match.
pub proof fn lemma_mask_phone_shape(s: Seq<char>)
    requires
        10 <= s.len() <= 17,
        s[0] == '0',
        '1' <= s[1] <= '9',
        forall|j: int| 2 <= j < s.len() ==> in_kind(#[trigger] s[j], CharKind::Phone),
        digit_seq_of(s).len() < 13,
    ensures
        digit_seq_of(s).len() == 10 ==> mask_text(s) == digit_seq_of(s).take(3) + phone_fill_10()
            + digit_seq_of(s).skip(8),
        digit_seq_of(s).len() == 9 ==> mask_text(s) == digit_seq_of(s).take(2) + phone_fill_9()
            + digit_seq_of(s).skip(7),
        digit_seq_of(s).len() != 10 && digit_seq_of(s).len() != 9 ==> mask_text(s) == s,
{
    let n = s.len() as int;
    let ds = digit_seq_of(s);
    assert(id_clean(s)) by {
        assert forall|i: int|
            0 <= i < s.len() && is_digit_char(s[i]) implies !(#[trigger] kind_run_end(
            s,
            i,
            CharKind::Digit,
        ) - i == 13 && spec_is_thai_id(
            s.subrange(i, kind_run_end(s, i, CharKind::Digit)),
        )) by {
            lemma_kind_run_end(s, i, CharKind::Digit);
            let j = kind_run_end(s, i, CharKind::Digit);
            if j - i == 13 {
                lemma_digit_count_of_run(s, i, j);
            }
        }
    }
    lemma_id_pass_clean(s, 0);
    assert(s.skip(0) =~= s);
    assert(card_clean(s)) by {
        assert forall|i: int| 0 <= i < s.len() && is_digit_char(s[i]) implies ({
            let ce = #[trigger] kind_run_end(s, i, CharKind::Card);
            let re = last_digit_end(s, i, ce);
            !(13 <= re - i <= 20 && re - i > 8 && luhn_valid_digits(
                digit_seq_of(s.subrange(i, re)),
            ))
        }) by {
            lemma_kind_run_end(s, i, CharKind::Card);
            let ce = kind_run_end(s, i, CharKind::Card);
            crate::masker::lemma_last_digit_end(s, i, ce);
            let re = last_digit_end(s, i, ce);
            lemma_digit_count_subrange(s, i, re);
        }
    }
    lemma_card_pass_clean(s, 0);
    assert(email_clean(s)) by {
        assert(forall|q: int| 0 <= q < s.len() ==> s[q] != '@');
    }
    lemma_email_pass_clean(s, 0);
    lemma_run_end_is(s, 2, CharKind::Phone, n);
    assert(phone_cand_at(s, 0));
    assert(phone_cand_end(s, 0) == n);
    assert(s.subrange(0, n) =~= s);
    assert(phone_mask_from(s, n) =~= Seq::<char>::empty());
    if ds.len() == 10 {
        assert(phone_mask_from(s, 0) =~= ds.take(3) + phone_fill_10() + ds.skip(8));
    } else if ds.len() == 9 {
        assert(phone_mask_from(s, 0) =~= ds.take(2) + phone_fill_9() + ds.skip(7));
    } else {
        assert(phone_mask_from(s, 0) =~= s);
    }
}

/// Up to the candidate at `p`, the phone pass copies the text unchanged:
/// no earlier position starts a phone-shaped candidate.
proof fn lemma_phone_pass_before(s: Seq<char>, p: int, i: int)
    requires
        0 <= i <= p <= s.len(),
        forall|j: int| 0 <= j < p ==> !(#[trigger] phone_cand_at(s, j)),
    ensures
        phone_mask_from(s, i) == s.subrange(i, p) + phone_mask_from(s, p),
    decreases p - i,
{
    if i == p {
        assert(s.subrange(p, p) + phone_mask_from(s, p) =~= phone_mask_from(s, p));
    } else {
        lemma_phone_pass_before(s, p, i + 1);
        assert(s.subrange(i, p) + phone_mask_from(s, p) =~= seq![s[i]] + (s.subrange(i + 1, p)
            + phone_mask_from(s, p)));
    }
}

/// The general phone law, for a match embedded in surrounding text: the
/// first phone-shaped candidate, at `p`, is replaced in place when its
/// digits number 10 (keeping 3 leading and 2 trailing digits around five
/// `X`) or 9 (2 leading and 2 trailing around four `X`); everything around
/// it is kept, provided the earlier passes find no valid candidate in `s`,
/// no candidate starts before `p`, and none after the match strips to 9 or
/// 10 digits.
pub proof fn lemma_mask_embedded_phone(s: Seq<char>, p: int)
    requires
        phone_cand_at(s, p),
        id_clean(s),
        card_clean(s),
        email_clean(s),
        forall|j: int| 0 <= j < p ==> !(#[trigger] phone_cand_at(s, j)),
        forall|j: int|
            j >= phone_cand_end(s, p) && #[trigger] phone_cand_at(s, j) ==> ({
                let ds = digit_seq_of(s.subrange(j, phone_cand_end(s, j)));
                ds.len() != 10 && ds.len() != 9
            }),
    ensures
        digit_seq_of(s.subrange(p, phone_cand_end(s, p))).len() == 10 ==> mask_text(s) == s.take(p)
            + (digit_seq_of(s.subrange(p, phone_cand_end(s, p))).take(3) + phone_fill_10()
            + digit_seq_of(s.subrange(p, phone_cand_end(s, p))).skip(8)) + s.skip(
            phone_cand_end(s, p),
        ),
        digit_seq_of(s.subrange(p, phone_cand_end(s, p))).len() == 9 ==> mask_text(s) == s.take(p)
            + (digit_seq_of(s.subrange(p, phone_cand_end(s, p))).take(2) + phone_fill_9()
            + digit_seq_of(s.subrange(p, phone_cand_end(s, p))).skip(7)) + s.skip(
            phone_cand_end(s, p),
        ),
{
    lemma_id_pass_clean(s, 0);
    assert(s.skip(0) =~= s);
    lemma_card_pass_clean(s, 0);
    lemma_email_pass_clean(s, 0);
    lemma_kind_run_end(s, p + 2, CharKind::Phone);
    let e = phone_cand_end(s, p);
    let ds = digit_seq_of(s.subrange(p, e));
    lemma_phone_pass_before(s, p, 0);
    assert(s.subrange(0, p) =~= s.take(p));
    lemma_phone_pass_clean_from(s, e);
    if ds.len() == 10 {
        assert(phone_mask_from(s, p) == ds.take(3) + phone_fill_10() + ds.skip(8) + s.skip(e));
        assert(phone_mask_from(s, 0) =~= s.take(p) + (ds.take(3) + phone_fill_10() + ds.skip(8))
            + s.skip(e));
    } else if ds.len() == 9 {
        assert(phone_mask_from(s, p) == ds.take(2) + phone_fill_9() + ds.skip(7) + s.skip(e));
        assert(phone_mask_from(s, 0) =~= s.take(p) + (ds.take(2) + phone_fill_9() + ds.skip(7))
            + s.skip(e));
    }
}

/// Scanning for the domain end skips over a dotless range.
pub proof fn lemma_dom_end_no_dots(r: Seq<char>, hi: int, lo: int)
    requires
        1 <= lo <= hi <= r.len(),
        forall|j: int| lo <= j < hi ==> r[j] != '.',
    ensures
        dom_end(r, hi) == dom_end(r, lo),
    decreases hi - lo,
{
    if hi > lo {
        lemma_dom_end_no_dots(r, hi - 1, lo);
    }
}

/// A digit-free e-mail address is redacted to at most the first two
/// characters of its local part; the domain is kept verbatim, and no other
/// pass touches the result. Positions: `nl` is where `@` stands, `dp` where
/// the last dot stands; everything after the dot is the top-level label.
#[verifier::rlimit(100)]
pub proof fn lemma_mask_email_address(s: Seq<char>, nl: int, dp: int)
    requires
        1 <= nl,
        nl + 2 <= dp,
        dp + 3 <= s.len(),
        s[nl] == '@',
        s[dp] == '.',
        forall|j: int|
            0 <= j < nl ==> in_kind(#[trigger] s[j], CharKind::Local) && !is_digit_char(s[j]),
        forall|j: int|
            nl + 1 <= j < dp ==> in_kind(#[trigger] s[j], CharKind::Domain) && !is_digit_char(
                s[j],
            ),
        forall|j: int| dp + 1 <= j < s.len() ==> is_letter_char(#[trigger] s[j]),
    ensures
        nl >= 2 ==> mask_text(s) == s.take(2) + seq!['*', '*', '*', '@'] + s.skip(nl + 1),
        nl < 2 ==> mask_text(s) == seq!['*', '@'] + s.skip(nl + 1),
{
    let n = s.len() as int;
    let dom = s.skip(nl + 1);
    let nd = dom.len() as int;
    let dd = dp - (nl + 1);
    assert(forall|j: int| 0 <= j < nd ==> dom[j] == s[nl + 1 + j]);
    assert(forall|j: int| 0 <= j < n ==> !is_digit_char(s[j]));
    assert(id_clean(s));
    lemma_id_pass_clean(s, 0);
    assert(s.skip(0) =~= s);
    assert(card_clean(s));
    lemma_card_pass_clean(s, 0);
    lemma_run_end_is(s, 0, CharKind::Local, nl);
    lemma_run_end_is(s, nl + 1, CharKind::Domain, n);
    assert(s.subrange(nl + 1, n) =~= dom);
    lemma_dom_end_no_dots(dom, nd, dd + 1);
    lemma_run_end_is(dom, dd + 1, CharKind::Letter, nd);
    assert(letters_after(dom, dd) == nd - (dd + 1));
    assert(dom_end(dom, dd + 1) == nd);
    assert(dom_end(dom, nd) == nd);
    assert(dom.take(nd) =~= dom);
    assert(email_mask_from(s, n) =~= Seq::<char>::empty());
    let out = if nl < 2 {
        seq!['*', '@'] + dom
    } else {
        s.take(2) + seq!['*', '*', '*', '@'] + dom
    };
    if nl >= 2 {
        assert(s.subrange(0, 2) =~= s.take(2));
    }
    assert(email_mask_from(s, 0) =~= out);
    assert(forall|j: int| 0 <= j < out.len() ==> !is_digit_char(out[j]));
    assert(phone_clean(out)) by {
        assert forall|i: int| #[trigger] phone_cand_at(out, i) implies false by {
            assert(is_digit_char(out[i]));
        }
    }
    lemma_phone_pass_clean(out, 0);
    assert(out.skip(0) =~= out);
}

/// The contract of the whole battery: a unit in which no pass finds a valid
/// candidate is returned unchanged.
pub proof fn lemma_mask_no_candidates(s: Seq<char>)
    requires
        id_clean(s),
        card_clean(s),
        email_clean(s),
        phone_clean(s),
    ensures
        mask_text(s) == s,
{
    lemma_id_pass_clean(s, 0);
    lemma_card_pass_clean(s, 0);
    lemma_email_pass_clean(s, 0);
    lemma_phone_pass_clean(s, 0);
    assert(s.skip(0) =~= s);
}

/// A card-shaped match whose digits fail the Luhn check is not redacted:
/// the pass must not touch arbitrary digit runs. The match may not hold a
/// run of 13 consecutive digits (the ID pass would inspect those first) nor
/// a phone-shaped candidate of 9 or 10 digits (the phone pass would).
pub proof fn lemma_mask_invalid_card_with_separators(s: Seq<char>)
    requires
        13 <= s.len() <= 20,
        forall|j: int| 0 <= j < s.len() ==> in_kind(#[trigger] s[j], CharKind::Card),
        is_digit_char(s[0]),
        is_digit_char(s[s.len() - 1]),
        forall|i: int|
            0 <= i < s.len() && is_digit_char(s[i]) ==> #[trigger] kind_run_end(
                s,
                i,
                CharKind::Digit,
            ) - i < 13,
        !luhn_valid_digits(digit_seq_of(s)),
        phone_clean(s),
    ensures
        mask_text(s) == s,
{
    let n = s.len() as int;
    assert(id_clean(s));
    lemma_id_pass_clean(s, 0);
    assert(s.skip(0) =~= s);
    lemma_run_end_is(s, 0, CharKind::Card, n);
    lemma_last_digit_end_is(s, 0, n, n);
    assert(card_mask_from(s, n) =~= Seq::<char>::empty());
    assert(s.subrange(0, n) =~= s);
    assert(card_mask_from(s, 0) =~= s);
    assert(email_clean(s)) by {
        assert(forall|q: int| 0 <= q < s.len() ==> s[q] != '@');
    }
    lemma_email_pass_clean(s, 0);
    lemma_phone_pass_clean(s, 0);
}

/// Up to the match whose local part starts at `p`, the e-mail pass copies
/// the text unchanged: every earlier `@` lacks a local part before it, and
/// no local run crosses into `p`.
proof fn lemma_email_pass_before(s: Seq<char>, p: int, i: int)
    requires
        0 <= i <= p <= s.len(),
        p == 0 || !in_kind(s[p - 1], CharKind::Local),
        forall|q: int| 0 < q < p && #[trigger] s[q] == '@' ==> !in_kind(s[q - 1], CharKind::Local),
    ensures
        email_mask_from(s, i) == s.subrange(i, p) + email_mask_from(s, p),
    decreases p - i,
{
    if i == p {
        assert(s.subrange(p, p) + email_mask_from(s, p) =~= email_mask_from(s, p));
    } else if !in_kind(s[i], CharKind::Local) {
        lemma_email_pass_before(s, p, i + 1);
        assert(s.subrange(i, p) + email_mask_from(s, p) =~= seq![s[i]] + (s.subrange(i + 1, p)
            + email_mask_from(s, p)));
    } else {
        lemma_kind_run_end(s, i, CharKind::Local);
        lemma_kind_run_end(s, i + 1, CharKind::Local);
        let q = kind_run_end(s, i, CharKind::Local);
        assert(q <= p - 1) by {
            if q > p - 1 {
                assert(in_kind(s[p - 1], CharKind::Local));
            }
        }
        if q < s.len() && s[q] == '@' {
            assert(in_kind(s[q - 1], CharKind::Local));
            assert(false);
        }
        lemma_email_pass_before(s, p, q);
        assert(s.subrange(i, p) + email_mask_from(s, p) =~= s.subrange(i, q) + (s.subrange(q, p)
            + email_mask_from(s, p)));
    }
}

/// The e-mail pass on the match at `p` alone: it consumes the local part,
/// the `@` and the domain ending at `de`, emits the redacted form, and
/// leaves everything after the match unchanged.
#[verifier::rlimit(100)]
proof fn lemma_email_match_at(s: Seq<char>, p: int, a: int, dp: int, de: int)
    requires
        0 <= p < a,
        a + 2 <= dp,
        dp + 3 <= de <= s.len(),
        forall|j: int| p <= j < a ==> in_kind(#[trigger] s[j], CharKind::Local),
        s[a] == '@',
        forall|j: int| a < j < dp ==> in_kind(#[trigger] s[j], CharKind::Domain),
        s[dp] == '.',
        forall|j: int| dp < j < de ==> is_letter_char(#[trigger] s[j]),
        de == s.len() || !in_kind(s[de], CharKind::Domain),
        forall|q: int| de < q < s.len() && #[trigger] s[q] == '@' ==> !in_kind(
            s[q - 1],
            CharKind::Local,
        ),
    ensures
        a - p >= 2 ==> email_mask_from(s, p) == (s.subrange(p, p + 2) + seq!['*', '*', '*', '@']
            + s.subrange(a + 1, de)) + s.skip(de),
        a - p < 2 ==> email_mask_from(s, p) == (seq!['*', '@'] + s.subrange(a + 1, de)) + s.skip(
            de,
        ),
{
    lemma_run_end_is(s, p, CharKind::Local, a);
    lemma_run_end_is(s, a + 1, CharKind::Domain, de);
    let rdom = s.subrange(a + 1, de);
    let nd = rdom.len() as int;
    let dd = dp - (a + 1);
    assert(forall|j: int| 0 <= j < nd ==> rdom[j] == s[a + 1 + j]);
    lemma_dom_end_no_dots(rdom, nd, dd + 1);
    lemma_run_end_is(rdom, dd + 1, CharKind::Letter, nd);
    assert(letters_after(rdom, dd) == nd - (dd + 1));
    assert(dom_end(rdom, dd + 1) == nd);
    assert(dom_end(rdom, nd) == nd);
    assert(rdom.take(nd) =~= rdom);
    lemma_email_pass_clean_from(s, de);
}

/// The general e-mail law, for an address embedded in surrounding text.
/// The local part runs from `p` to the `@` at `a`, the domain from `a + 1`
/// to `de` with its last dot at `dp` followed only by letters. The match is
/// replaced in place, keeping at most the first two local characters and
/// the whole domain; everything around it is kept, provided the earlier
/// passes find no valid candidate in `s`, no `@` before or after the match
/// has a local part, and no phone-shaped candidate survives in the result.
#[verifier::rlimit(100)]
pub proof fn lemma_mask_embedded_email(s: Seq<char>, p: int, a: int, dp: int, de: int)
    requires
        0 <= p < a,
        a + 2 <= dp,
        dp + 3 <= de <= s.len(),
        forall|j: int| p <= j < a ==> in_kind(#[trigger] s[j], CharKind::Local),
        s[a] == '@',
        forall|j: int| a < j < dp ==> in_kind(#[trigger] s[j], CharKind::Domain),
        s[dp] == '.',
        forall|j: int| dp < j < de ==> is_letter_char(#[trigger] s[j]),
        de == s.len() || !in_kind(s[de], CharKind::Domain),
        p == 0 || !in_kind(s[p - 1], CharKind::Local),
        forall|q: int| 0 < q < p && #[trigger] s[q] == '@' ==> !in_kind(s[q - 1], CharKind::Local),
        forall|q: int| de < q < s.len() && #[trigger] s[q] == '@' ==> !in_kind(
            s[q - 1],
            CharKind::Local,
        ),
        id_clean(s),
        card_clean(s),
        a - p >= 2 ==> phone_clean(
            s.take(p) + (s.subrange(p, p + 2) + seq!['*', '*', '*', '@'] + s.subrange(a + 1, de))
                + s.skip(de),
        ),
        a - p < 2 ==> phone_clean(
            s.take(p) + (seq!['*', '@'] + s.subrange(a + 1, de)) + s.skip(de),
        ),
    ensures
        a - p >= 2 ==> mask_text(s) == s.take(p) + (s.subrange(p, p + 2) + seq!['*', '*', '*', '@']
            + s.subrange(a + 1, de)) + s.skip(de),
        a - p < 2 ==> mask_text(s) == s.take(p) + (seq!['*', '@'] + s.subrange(a + 1, de))
            + s.skip(de),
{
    lemma_id_pass_clean(s, 0);
    assert(s.skip(0) =~= s);
    lemma_card_pass_clean(s, 0);
    lemma_email_pass_before(s, p, 0);
    assert(s.subrange(0, p) =~= s.take(p));
    lemma_email_match_at(s, p, a, dp, de);
    let masked = if a - p < 2 {
        seq!['*', '@'] + s.subrange(a + 1, de)
    } else {
        s.subrange(p, p + 2) + seq!['*', '*', '*', '@'] + s.subrange(a + 1, de)
    };
    let m = s.take(p) + masked + s.skip(de);
    assert(email_mask_from(s, 0) =~= m);
    lemma_phone_pass_clean(m, 0);
    assert(m.skip(0) =~= m);
}

/// Text that masking leaves unchanged is a fixed point: masking it again
/// changes nothing.
pub proof fn lemma_mask_idempotent_on_fixed(s: Seq<char>)
    requires
        mask_text(s) == s,
    ensures
        mask_text(mask_text(s)) == mask_text(s),
{
}

/// The redacted form of a checksum-valid national ID is itself fully
/// redacted: masking the masked text changes nothing, so masking is
/// idempotent on such inputs.
pub proof fn lemma_mask_national_id_idempotent(s: Seq<char>)
    requires
        s.len() == 13,
        forall|i: int| 0 <= i < 13 ==> is_digit_char(#[trigger] s[i]),
        spec_is_thai_id(s),
    ensures
        mask_text(mask_text(s)) == mask_text(s),
{
    lemma_mask_valid_national_id(s);
    lemma_masked_id_form_fixed(s);
}

} // verus!
