//! Reading back what was written: a number that is not negative, written
//! with or without zero padding, reads as itself.

use vstd::prelude::*;
use crate::decimal::{
    all_digits,
    digit_char,
    digit_value,
    digits,
    digits_value,
    padded,
    parse_i32_text,
    parse_int,
    zeros,
};

verus! {

/// The digits of a number are digits, and spell the number.
pub proof fn lemma_digits_spell(n: nat)
    ensures
        all_digits(digits(n)),
        digits_value(digits(n)) == n,
        digits(n).len() >= 1,
    decreases n,
{
    if n < 10 {
        let s = digits(n);
        assert(s.len() == 1);
        assert(s.drop_last() =~= Seq::<char>::empty());
        assert(digits_value(s.drop_last()) == 0);
        assert(digit_value(digit_char(n as int)) == Some(n as int));
    } else {
        lemma_digits_spell(n / 10);
        let head = digits(n / 10);
        let c = digit_char((n % 10) as int);
        let s = head.push(c);
        assert(s.drop_last() =~= head);
        assert(s.last() == c);
        assert(digit_value(c) == Some((n % 10) as int));
        assert forall|i: int| 0 <= i < s.len() implies (#[trigger] digit_value(s[i])) is Some by {
            if i < head.len() {
                assert(s[i] == head[i]);
            }
        }
    }
}

/// Zeros spell zero.
pub proof fn lemma_zeros_spell_zero(k: nat)
    ensures
        all_digits(zeros(k)),
        digits_value(zeros(k)) == 0,
    decreases k,
{
    if k > 0 {
        lemma_zeros_spell_zero((k - 1) as nat);
        assert(zeros(k).drop_last() =~= zeros((k - 1) as nat));
    }
}

/// Zeros in front of digits do not change what the digits spell.
pub proof fn lemma_leading_zeros(k: nat, s: Seq<char>)
    requires
        all_digits(s),
    ensures
        all_digits(zeros(k) + s),
        digits_value(zeros(k) + s) == digits_value(s),
    decreases s.len(),
{
    lemma_zeros_spell_zero(k);
    let all = zeros(k) + s;
    if s.len() == 0 {
        assert(all =~= zeros(k));
    } else {
        assert(all_digits(s.drop_last())) by {
            assert forall|i: int| 0 <= i < s.drop_last().len() implies (#[trigger] digit_value(
                s.drop_last()[i],
            )) is Some by {
                assert(s.drop_last()[i] == s[i]);
            }
        }
        lemma_leading_zeros(k, s.drop_last());
        assert(all.drop_last() =~= zeros(k) + s.drop_last());
        assert(all.last() == s.last());
        assert forall|i: int| 0 <= i < all.len() implies (#[trigger] digit_value(all[i])) is Some by {
            if i < k {
                assert(all[i] == '0');
            } else {
                assert(all[i] == s[i - k]);
            }
        }
    }
}

/// A number that is not negative, written with zero padding, holds digits
/// only.
pub proof fn lemma_padded_is_digits(v: int, width: nat)
    requires
        0 <= v,
    ensures
        all_digits(padded(v, width)),
        digits_value(padded(v, width)) == v,
        padded(v, width).len() >= 1,
{
    lemma_digits_spell(v as nat);
    let body = digits(v as nat);
    let fill = if body.len() < width {
        (width - body.len()) as nat
    } else {
        0nat
    };
    lemma_leading_zeros(fill, body);
    assert(padded(v, width) =~= zeros(fill) + body);
}

/// A 32-bit number that is not negative, written with zero padding, reads as
/// itself.
pub proof fn lemma_padded_reads_back(v: i32, width: nat)
    requires
        0 <= v,
    ensures
        parse_i32_text(padded(v as int, width)) == Some(v),
{
    lemma_padded_is_digits(v as int, width);
    let s = padded(v as int, width);
    assert(digit_value(s[0]) is Some);
    assert(s[0] != '-' && s[0] != '+');
    assert(parse_int(s, i32::MIN as int, i32::MAX as int) == Some(v as int));
}

} // verus!
