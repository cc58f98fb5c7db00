//! Decimal numbers as text: how an integer is written, with or without
//! zero padding, and how text is read back as an integer.

use vstd::prelude::*;

verus! {

/// The character of one decimal digit.
pub open spec fn digit_char(d: int) -> char {
    if d == 0 {
        '0'
    } else if d == 1 {
        '1'
    } else if d == 2 {
        '2'
    } else if d == 3 {
        '3'
    } else if d == 4 {
        '4'
    } else if d == 5 {
        '5'
    } else if d == 6 {
        '6'
    } else if d == 7 {
        '7'
    } else if d == 8 {
        '8'
    } else {
        '9'
    }
}

/// The value of a decimal digit, or `None` for any other character.
pub open spec fn digit_value(c: char) -> Option<int> {
    if c == '0' {
        Some(0)
    } else if c == '1' {
        Some(1)
    } else if c == '2' {
        Some(2)
    } else if c == '3' {
        Some(3)
    } else if c == '4' {
        Some(4)
    } else if c == '5' {
        Some(5)
    } else if c == '6' {
        Some(6)
    } else if c == '7' {
        Some(7)
    } else if c == '8' {
        Some(8)
    } else if c == '9' {
        Some(9)
    } else {
        None
    }
}

/// The decimal digits of `n`, most significant first, without leading zeros
/// (`"0"` for zero).
pub open spec fn digits(n: nat) -> Seq<char>
    decreases n,
{
    if n < 10 {
        seq![digit_char(n as int)]
    } else {
        digits(n / 10).push(digit_char((n % 10) as int))
    }
}

/// `v` written in decimal, with a leading `-` when negative.
pub open spec fn decimal(v: int) -> Seq<char> {
    if v < 0 {
        seq!['-'] + digits((-v) as nat)
    } else {
        digits(v as nat)
    }
}

/// `n` zeros.
pub open spec fn zeros(n: nat) -> Seq<char> {
    Seq::new(n, |i: int| '0')
}

/// `v` written in decimal and filled with zeros after the sign up to
/// `width` characters in all; longer numbers are not cut.
pub open spec fn padded(v: int, width: nat) -> Seq<char> {
    let body = digits((if v < 0 { -v } else { v }) as nat);
    let sign = if v < 0 { seq!['-'] } else { Seq::<char>::empty() };
    let fill = if sign.len() + body.len() < width {
        (width - sign.len() - body.len()) as nat
    } else {
        0nat
    };
    sign + zeros(fill) + body
}

/// Every character of `s` is a decimal digit.
pub open spec fn all_digits(s: Seq<char>) -> bool {
    forall|i: int| 0 <= i < s.len() ==> (#[trigger] digit_value(s[i])) is Some
}

/// The number that the digits of `s` spell (0 for the empty text).
pub open spec fn digits_value(s: Seq<char>) -> nat
    decreases s.len(),
{
    if s.len() == 0 {
        0
    } else {
        let d = digit_value(s.last());
        (digits_value(s.drop_last()) * 10 + (if d is Some { d.unwrap() } else { 0 })) as nat
    }
}

/// Reads a signed decimal number: an optional `+` or `-`, then one or more
/// digits and nothing else. The value must lie in `lo..=hi`.
pub open spec fn parse_int(s: Seq<char>, lo: int, hi: int) -> Option<int> {
    let neg = s.len() > 0 && s[0] == '-';
    let signed = s.len() > 0 && (s[0] == '-' || s[0] == '+');
    let body = if signed { s.drop_first() } else { s };
    if body.len() == 0 || !all_digits(body) {
        None
    } else {
        let v = if neg { -(digits_value(body) as int) } else { digits_value(body) as int };
        if lo <= v <= hi {
            Some(v)
        } else {
            None
        }
    }
}

/// Reads an unsigned decimal number: an optional `+`, then one or more digits
/// and nothing else. The value must be at most `hi`.
pub open spec fn parse_nat(s: Seq<char>, hi: int) -> Option<int> {
    let signed = s.len() > 0 && s[0] == '+';
    let body = if signed { s.drop_first() } else { s };
    if body.len() == 0 || !all_digits(body) {
        None
    } else if digits_value(body) <= hi {
        Some(digits_value(body) as int)
    } else {
        None
    }
}

/// What `parse_int` gives for 32-bit numbers.
pub open spec fn parse_i32_text(s: Seq<char>) -> Option<i32> {
    match parse_int(s, i32::MIN as int, i32::MAX as int) {
        Some(v) => Some(v as i32),
        None => None,
    }
}

/// What `parse_int` gives for 64-bit numbers.
pub open spec fn parse_i64_text(s: Seq<char>) -> Option<i64> {
    match parse_int(s, i64::MIN as int, i64::MAX as int) {
        Some(v) => Some(v as i64),
        None => None,
    }
}

/// What `parse_nat` gives for 16-bit numbers.
pub open spec fn parse_u16_text(s: Seq<char>) -> Option<u16> {
    match parse_nat(s, u16::MAX as int) {
        Some(v) => Some(v as u16),
        None => None,
    }
}

fn digit_of(d: u64) -> (c: char)
    requires
        d < 10,
    ensures
        c == digit_char(d as int),
{
    if d == 0 {
        '0'
    } else if d == 1 {
        '1'
    } else if d == 2 {
        '2'
    } else if d == 3 {
        '3'
    } else if d == 4 {
        '4'
    } else if d == 5 {
        '5'
    } else if d == 6 {
        '6'
    } else if d == 7 {
        '7'
    } else if d == 8 {
        '8'
    } else {
        '9'
    }
}

fn value_of(c: char) -> (d: Option<u64>)
    ensures
        match d {
            Some(v) => digit_value(c) == Some(v as int) && v < 10,
            None => digit_value(c) is None,
        },
{
    if c == '0' {
        Some(0)
    } else if c == '1' {
        Some(1)
    } else if c == '2' {
        Some(2)
    } else if c == '3' {
        Some(3)
    } else if c == '4' {
        Some(4)
    } else if c == '5' {
        Some(5)
    } else if c == '6' {
        Some(6)
    } else if c == '7' {
        Some(7)
    } else if c == '8' {
        Some(8)
    } else if c == '9' {
        Some(9)
    } else {
        None
    }
}

/// Appends the digits of `n` to `out`.
pub fn push_digits(out: &mut Vec<char>, n: u64)
    ensures
        final(out)@ == old(out)@ + digits(n as nat),
    decreases n,
{
    if n >= 10 {
        push_digits(out, n / 10);
    }
    out.push(digit_of(n % 10));
    proof {
        if n >= 10 {
            assert(final(out)@ =~= old(out)@ + digits(n as nat));
        } else {
            assert(final(out)@ =~= old(out)@ + digits(n as nat));
        }
    }
}

/// How many digits `n` has.
pub fn digit_count(n: u64) -> (k: usize)
    ensures
        k == digits(n as nat).len(),
        1 <= k <= 20,
    decreases n,
{
    if n >= 10 {
        let k = digit_count(n / 10);
        proof {
            lemma_digits_len_bound(n as nat);
        }
        k + 1
    } else {
        1
    }
}

/// A number below `10^k` has at most `k` digits; 64-bit numbers have at most 20.
pub proof fn lemma_digits_len_bound(n: nat)
    requires
        n <= u64::MAX,
    ensures
        1 <= digits(n).len() <= 20,
{
    reveal_with_fuel(digits, 21);
}

/// The magnitude of a 64-bit number.
fn magnitude(v: i64) -> (m: u64)
    ensures
        m == (if v < 0 { -(v as int) } else { v as int }),
{
    if v == i64::MIN {
        9223372036854775808u64
    } else if v < 0 {
        (-v) as u64
    } else {
        v as u64
    }
}

/// Appends `v` in decimal to `out`.
pub fn push_decimal(out: &mut Vec<char>, v: i64)
    ensures
        final(out)@ == old(out)@ + decimal(v as int),
{
    if v < 0 {
        out.push('-');
    }
    let ghost mid = out@;
    push_digits(out, magnitude(v));
    proof {
        if v < 0 {
            assert(mid =~= old(out)@ + seq!['-']);
            assert(final(out)@ =~= old(out)@ + decimal(v as int));
        }
    }
}

/// Appends `v` to `out`, zero padded to `width` characters.
pub fn push_padded(out: &mut Vec<char>, v: i64, width: usize)
    ensures
        final(out)@ == old(out)@ + padded(v as int, width as nat),
{
    let m = magnitude(v);
    let k = digit_count(m);
    let sign: usize = if v < 0 { 1 } else { 0 };
    if v < 0 {
        out.push('-');
    }
    let fill: usize = if sign + k < width { width - sign - k } else { 0 };
    let ghost start = out@;
    let mut i: usize = 0;
    while i < fill
        invariant
            i <= fill,
            out@ == start + zeros(i as nat),
        decreases fill - i,
    {
        out.push('0');
        assert(out@ =~= start + zeros((i + 1) as nat));
        i += 1;
    }
    let ghost mid = out@;
    push_digits(out, m);
    proof {
        let sign_seq = if v < 0 { seq!['-'] } else { Seq::<char>::empty() };
        assert(start =~= old(out)@ + sign_seq);
        assert(final(out)@ =~= old(out)@ + padded(v as int, width as nat));
    }
}

/// Reads `s[from..to]` as a signed decimal number within `lo..=hi`.
pub fn read_int(s: &Vec<char>, from: usize, to: usize, lo: i64, hi: i64) -> (r: Option<i64>)
    requires
        from <= to <= s.len(),
    ensures
        match r {
            Some(v) => parse_int(s@.subrange(from as int, to as int), lo as int, hi as int)
                == Some(v as int),
            None => parse_int(s@.subrange(from as int, to as int), lo as int, hi as int) is None,
        },
{
    let ghost text = s@.subrange(from as int, to as int);
    if from == to {
        return None;
    }
    let neg = s[from] == '-';
    let signed = s[from] == '-' || s[from] == '+';
    assert(text[0] == s@[from as int]);
    let start: usize = if signed { from + 1 } else { from };
    let ghost body = if signed { text.drop_first() } else { text };
    assert(body =~= s@.subrange(start as int, to as int));
    if start == to {
        return None;
    }
    let limit: u128 = 9223372036854775808u128;
    let mut acc: u128 = 0;
    let mut over = false;
    let mut i: usize = start;
    while i < to
        invariant
            start <= i <= to <= s.len(),
            from < to,
            text == s@.subrange(from as int, to as int),
            signed == (text[0] == '-' || text[0] == '+'),
            body == (if signed { text.drop_first() } else { text }),
            body == s@.subrange(start as int, to as int),
            all_digits(body.subrange(0, i - start)),
            !over ==> acc == digits_value(body.subrange(0, i - start)) && acc <= limit,
            over ==> digits_value(body.subrange(0, i - start)) > limit,
            limit == 9223372036854775808u128,
        decreases to - i,
    {
        let ghost before = body.subrange(0, i - start);
        let ghost after = body.subrange(0, i - start + 1);
        assert(after.drop_last() =~= before);
        assert(after.last() == s@[i as int]);
        match value_of(s[i]) {
            None => {
                assert(body[i - start] == s@[i as int]);
                assert(digit_value(body[i - start]) is None);
                assert(!all_digits(body));
                return None;
            },
            Some(d) => {
                assert forall|j: int| 0 <= j < after.len() implies (#[trigger] digit_value(
                    after[j],
                )) is Some by {
                    if j < before.len() {
                        assert(after[j] == before[j]);
                    }
                }
                if !over {
                    acc = acc * 10 + d as u128;
                    if acc > limit {
                        over = true;
                    }
                }
            },
        }
        i += 1;
    }
    assert(body.subrange(0, to - start) =~= body);
    if over {
        return None;
    }
    if neg {
        if acc == limit {
            if lo == i64::MIN {
                Some(i64::MIN)
            } else {
                None
            }
        } else {
            let v: i64 = -(acc as i64);
            if lo <= v && v <= hi {
                Some(v)
            } else {
                None
            }
        }
    } else {
        if acc == limit {
            None
        } else {
            let v: i64 = acc as i64;
            if lo <= v && v <= hi {
                Some(v)
            } else {
                None
            }
        }
    }
}

/// Reads `s` as a 32-bit decimal number.
pub fn read_i32(s: &Vec<char>) -> (r: Option<i32>)
    ensures
        r == parse_i32_text(s@),
{
    assert(s@.subrange(0, s.len() as int) =~= s@);
    match read_int(s, 0, s.len(), -2147483648i64, 2147483647i64) {
        Some(v) => Some(v as i32),
        None => None,
    }
}

/// Reads `s` as a 64-bit decimal number.
pub fn read_i64(s: &Vec<char>) -> (r: Option<i64>)
    ensures
        r == parse_i64_text(s@),
{
    assert(s@.subrange(0, s.len() as int) =~= s@);
    read_int(s, 0, s.len(), i64::MIN, i64::MAX)
}

/// Reads `s` as an unsigned 16-bit decimal number.
pub fn read_u16(s: &Vec<char>) -> (r: Option<u16>)
    ensures
        r == parse_u16_text(s@),
{
    assert(s@.subrange(0, s.len() as int) =~= s@);
    if s.len() > 0 && s[0] == '-' {
        assert(digit_value(s@[0]) is None);
        return None;
    }
    match read_int(s, 0, s.len(), 0, 65535) {
        Some(v) => Some(v as u16),
        None => None,
    }
}

} // verus!
