use vstd::prelude::*;

use crate::text::{chars_of, push_char};

verus! {

/// Why a text is no integer (`core::num::IntErrorKind`, the kinds `i64::from_str` gives).
#[derive(Debug, Clone, Copy, PartialEq, Eq, Structural)]
pub enum IntErrorKind {
    Empty,
    InvalidDigit,
    PosOverflow,
    NegOverflow,
}

pub open spec fn is_digit(c: char) -> bool {
    '0' <= c && c <= '9'
}

pub open spec fn digit_value(c: char) -> int {
    (c as int) - ('0' as int)
}

/// Reads decimal digits left to right into `acc` (subtracting them when `neg`), as
/// `i64::from_str` does: a non-digit or a value leaving the `i64` range stops it, whichever
/// comes first.
pub open spec fn digits_value(ds: Seq<char>, acc: int, neg: bool) -> Result<int, IntErrorKind>
    decreases ds.len(),
{
    if ds.len() == 0 {
        Ok(acc)
    } else if !is_digit(ds[0]) {
        Err(IntErrorKind::InvalidDigit)
    } else {
        let nv = if neg { acc * 10 - digit_value(ds[0]) } else { acc * 10 + digit_value(ds[0]) };
        if nv > i64::MAX {
            Err(IntErrorKind::PosOverflow)
        } else if nv < i64::MIN {
            Err(IntErrorKind::NegOverflow)
        } else {
            digits_value(ds.drop_first(), nv, neg)
        }
    }
}

/// `i64::from_str`: an optional `+` or `-`, then one or more decimal digits.
pub open spec fn parse_i64_spec(s: Seq<char>) -> Result<int, IntErrorKind> {
    if s.len() == 0 {
        Err(IntErrorKind::Empty)
    } else if (s[0] == '+' || s[0] == '-') && s.len() == 1 {
        Err(IntErrorKind::InvalidDigit)
    } else if s[0] == '+' {
        digits_value(s.drop_first(), 0, false)
    } else if s[0] == '-' {
        digits_value(s.drop_first(), 0, true)
    } else {
        digits_value(s, 0, false)
    }
}

proof fn lemma_digits_value_range(ds: Seq<char>, acc: int, neg: bool)
    requires
        i64::MIN <= acc <= i64::MAX,
    ensures
        digits_value(ds, acc, neg) matches Ok(v) ==> i64::MIN <= v <= i64::MAX,
    decreases ds.len(),
{
    if ds.len() > 0 && is_digit(ds[0]) {
        let nv = if neg { acc * 10 - digit_value(ds[0]) } else { acc * 10 + digit_value(ds[0]) };
        if i64::MIN <= nv <= i64::MAX {
            lemma_digits_value_range(ds.drop_first(), nv, neg);
        }
    }
}

/// `s.parse::<i64>()`, with the error's kind.
pub fn parse_i64(s: &str) -> (r: Result<i64, IntErrorKind>)
    ensures
        match r {
            Ok(v) => parse_i64_spec(s@) == Ok::<int, IntErrorKind>(v as int),
            Err(k) => parse_i64_spec(s@) == Err::<int, IntErrorKind>(k),
        },
{
    let v = chars_of(s);
    if v.len() == 0 {
        return Err(IntErrorKind::Empty);
    }
    if (v[0] == '+' || v[0] == '-') && v.len() == 1 {
        return Err(IntErrorKind::InvalidDigit);
    }
    let neg = v[0] == '-';
    let start: usize = if v[0] == '+' || v[0] == '-' { 1 } else { 0 };
    let ghost ds = s@.skip(start as int);
    proof {
        if start == 1 {
            assert(ds == s@.drop_first());
        } else {
            assert(ds == s@);
        }
    }
    let mut acc: i64 = 0;
    let mut i: usize = start;
    while i < v.len()
        invariant
            start <= i <= v.len(),
            v@ == s@,
            ds == s@.skip(start as int),
            neg == (v@[0] == '-'),
            parse_i64_spec(s@) == digits_value(ds, 0, neg),
            digits_value(ds, 0, neg) == digits_value(s@.skip(i as int), acc as int, neg),
        decreases v.len() - i,
    {
        let c = v[i];
        let ghost rest = s@.skip(i as int);
        assert(rest[0] == c);
        assert(rest.drop_first() == s@.skip(i + 1));
        if !('0' <= c && c <= '9') {
            return Err(IntErrorKind::InvalidDigit);
        }
        let d = (c as u32 - '0' as u32) as i64;
        assert(d == digit_value(c));
        let wide: i128 = if neg { acc as i128 * 10 - d as i128 } else { acc as i128 * 10 + d as i128 };
        if wide > i64::MAX as i128 {
            return Err(IntErrorKind::PosOverflow);
        }
        if wide < i64::MIN as i128 {
            return Err(IntErrorKind::NegOverflow);
        }
        acc = wide as i64;
        i = i + 1;
    }
    assert(s@.skip(v.len() as int).len() == 0);
    Ok(acc)
}

/// The decimal digit for `n` in `0..10`.
pub open spec fn digit_char(n: int) -> char {
    seq!['0', '1', '2', '3', '4', '5', '6', '7', '8', '9'][n]
}

/// The decimal writing of a natural number, without leading zeros.
pub open spec fn decimal(n: nat) -> Seq<char>
    decreases n,
{
    if n < 10 {
        seq![digit_char(n as int)]
    } else {
        decimal(n / 10) + seq![digit_char((n % 10) as int)]
    }
}

/// `s` with `'0'`s put in front until it is `width` long.
pub open spec fn zero_pad(s: Seq<char>, width: nat) -> Seq<char> {
    if s.len() >= width {
        s
    } else {
        Seq::new((width - s.len()) as nat, |i: int| '0') + s
    }
}

/// `format!("{:0w$}", v)` for an integer: zero padding after the sign, the sign counting
/// towards the width.
pub open spec fn format_padded(v: int, width: nat) -> Seq<char> {
    if v >= 0 {
        zero_pad(decimal(v as nat), width)
    } else {
        seq!['-'] + zero_pad(decimal((-v) as nat), if width >= 1 { (width - 1) as nat } else { 0 })
    }
}

fn digit_of(n: u64) -> (c: char)
    requires
        n < 10,
    ensures
        c == digit_char(n as int),
{
    if n == 0 { '0' } else if n == 1 { '1' } else if n == 2 { '2' } else if n == 3 { '3' }
    else if n == 4 { '4' } else if n == 5 { '5' } else if n == 6 { '6' } else if n == 7 { '7' }
    else if n == 8 { '8' } else { '9' }
}

/// Appends the decimal writing of `n`.
pub fn push_decimal(out: &mut String, n: u64)
    ensures
        final(out)@ == old(out)@ + decimal(n as nat),
    decreases n,
{
    if n < 10 {
        push_char(out, digit_of(n));
    } else {
        push_decimal(out, n / 10);
        push_char(out, digit_of(n % 10));
        assert(old(out)@ + decimal((n / 10) as nat) + seq![digit_char((n % 10) as int)]
            == old(out)@ + (decimal((n / 10) as nat) + seq![digit_char((n % 10) as int)]));
    }
}

pub proof fn lemma_decimal_len(n: nat)
    ensures
        decimal(n).len() >= 1,
        n < 10 ==> decimal(n).len() == 1,
        10 <= n < 100 ==> decimal(n).len() == 2,
    decreases n,
{
    if n >= 10 {
        lemma_decimal_len(n / 10);
    }
}

/// Appends `format!("{:0width$}", v)`.
pub fn push_padded(out: &mut String, v: i64, width: u64)
    requires
        width <= 64,
    ensures
        final(out)@ == old(out)@ + format_padded(v as int, width as nat),
{
    let mut digits = String::new();
    let mag: u64 = if v >= 0 { v as u64 } else { ((-(v as i128)) as u64) };
    assert(mag as int == if v >= 0 { v as int } else { -(v as int) });
    push_decimal(&mut digits, mag);
    assert(digits@ == decimal(mag as nat));
    let w: u64 = if v >= 0 { width } else if width >= 1 { width - 1 } else { 0 };
    if v < 0 {
        push_char(out, '-');
    }
    let ghost base = out@;
    let dchars = chars_of(digits.as_str());
    let mut k: u64 = dchars.len() as u64;
    proof {
        lemma_decimal_len(mag as nat);
    }
    let ghost dl = digits@.len();
    let mut pad: u64 = 0;
    while k < w
        invariant
            dl == digits@.len(),
            dl <= k,
            k <= w || k == dl,
            pad == k - dl,
            out@ == base + Seq::new(pad as nat, |i: int| '0'),
        decreases w - k,
    {
        push_char(out, '0');
        assert(Seq::new(pad as nat, |i: int| '0').push('0') =~= Seq::new((pad + 1) as nat, |i: int| '0'));
        k = k + 1;
        pad = pad + 1;
    }
    out.append(digits.as_str());
    proof {
        if dl >= w {
            assert(pad == 0);
            assert(Seq::new(0nat, |i: int| '0') + digits@ =~= digits@);
            assert(zero_pad(digits@, w as nat) == digits@);
        } else {
            assert(pad == w - dl);
        }
        if v < 0 {
            assert(old(out)@ + format_padded(v as int, width as nat) == old(out)@ + seq!['-'] + zero_pad(digits@, w as nat));
        }
    }
}

proof fn lemma_digit_char(d: int)
    requires
        0 <= d < 10,
    ensures
        is_digit(digit_char(d)),
        digit_value(digit_char(d)) == d,
{
    if d == 0 {
    } else if d == 1 {
    } else if d == 2 {
    } else if d == 3 {
    } else if d == 4 {
    } else if d == 5 {
    } else if d == 6 {
    } else if d == 7 {
    } else if d == 8 {
    } else {
    }
}

/// Reading one more digit continues from the value read so far.
proof fn lemma_digits_value_push(ds: Seq<char>, c: char, acc: int, neg: bool)
    ensures
        digits_value(ds, acc, neg) matches Ok(x) ==> digits_value(ds.push(c), acc, neg) == digits_value(seq![c], x, neg),
    decreases ds.len(),
{
    if ds.len() == 0 {
        assert(ds.push(c) =~= seq![c]);
    } else {
        assert(ds.push(c)[0] == ds[0]);
        assert(ds.push(c).drop_first() =~= ds.drop_first().push(c));
        if is_digit(ds[0]) {
            let nv = if neg { acc * 10 - digit_value(ds[0]) } else { acc * 10 + digit_value(ds[0]) };
            lemma_digits_value_push(ds.drop_first(), c, nv, neg);
        }
    }
}

/// `i64::from_str` reads back the decimal writing of every natural number in its range, with
/// or without a leading `-`.
pub proof fn lemma_parse_decimal(n: nat)
    requires
        n <= i64::MAX,
    ensures
        parse_i64_spec(decimal(n)) == Ok::<int, IntErrorKind>(n as int),
        parse_i64_spec(seq!['-'] + decimal(n)) == Ok::<int, IntErrorKind>(-(n as int)),
        is_digit(decimal(n)[0]),
        is_digit(decimal(n).last()),
    decreases n,
{
    lemma_decimal_value(n, false);
    lemma_decimal_value(n, true);
    lemma_decimal_len(n);
    assert((seq!['-'] + decimal(n)).drop_first() =~= decimal(n));
}

proof fn lemma_decimal_value(n: nat, neg: bool)
    requires
        n <= i64::MAX,
    ensures
        digits_value(decimal(n), 0, neg) == Ok::<int, IntErrorKind>(if neg { -(n as int) } else { n as int }),
        is_digit(decimal(n)[0]),
        is_digit(decimal(n).last()),
    decreases n,
{
    lemma_decimal_len(n);
    if n < 10 {
        lemma_digit_char(n as int);
        assert(decimal(n) == seq![digit_char(n as int)]);
        assert(decimal(n)[0] == digit_char(n as int));
        assert(decimal(n).drop_first().len() == 0);
        assert(decimal(n).drop_first() =~= Seq::<char>::empty());
        let nv: int = if neg { 0 * 10 - (n as int) } else { 0 * 10 + (n as int) };
        assert(digits_value(decimal(n), 0, neg) == digits_value(decimal(n).drop_first(), nv, neg));
    } else {
        let q: nat = n / 10;
        let r: int = (n % 10) as int;
        lemma_decimal_value(q, neg);
        lemma_digit_char(r);
        lemma_decimal_len(q);
        let c = digit_char(r);
        assert(decimal(n) =~= decimal(q).push(c));
        lemma_digits_value_push(decimal(q), c, 0, neg);
        assert(seq![c].drop_first().len() == 0);
        assert(seq![c][0] == c);
        assert(q * 10 + r == n) by {
            vstd::arithmetic::div_mod::lemma_fundamental_div_mod(n as int, 10);
        }
        let x: int = if neg { -(q as int) } else { q as int };
        let nv: int = if neg { x * 10 - r } else { x * 10 + r };
        assert(nv == if neg { -(n as int) } else { n as int });
        assert(digits_value(seq![c], x, neg) == digits_value(seq![c].drop_first(), nv, neg));
        assert(digits_value(seq![c].drop_first(), nv, neg) == Ok::<int, IntErrorKind>(nv));
        assert(digits_value(decimal(n), 0, neg) == digits_value(seq![c], x, neg));
        assert(decimal(n)[0] == decimal(q)[0]);
    }
}

} // verus!
