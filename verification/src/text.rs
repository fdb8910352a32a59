//! Text output: decimal, hexadecimal and octal numbers, padding, and appending text
//! to byte buffers.
use vstd::prelude::*;
use vstd::string::StrSliceExecFns;
use vstd::utf8::encode_utf8;

verus! {

/// Decimal digits of `n`.
pub open spec fn decimal(n: nat) -> Seq<u8>
    decreases n,
{
    if n < 10 {
        seq![(48 + n) as u8]
    } else {
        decimal(n / 10).push((48 + n % 10) as u8)
    }
}

/// `s` right-aligned in a field of `w` bytes (padded with spaces).
pub open spec fn pad_left(s: Seq<u8>, w: nat) -> Seq<u8> {
    if s.len() >= w {
        s
    } else {
        Seq::new((w - s.len()) as nat, |i: int| 32u8) + s
    }
}

/// The low byte of each character (the bytes of an ASCII text).
pub open spec fn ascii(s: Seq<char>) -> Seq<u8> {
    Seq::new(s.len(), |i: int| s[i] as u8)
}

/// Append the decimal digits of `n`.
pub fn push_decimal(out: &mut Vec<u8>, n: u64)
    ensures
        final(out)@ == old(out)@ + decimal(n as nat),
    decreases n,
{
    if n >= 10 {
        push_decimal(out, n / 10);
    }
    out.push(48 + (n % 10) as u8);
    proof {
        if n < 10 {
            assert(final(out)@ =~= old(out)@ + decimal(n as nat)) by {
                assert(decimal(n as nat) == seq![(48 + n) as u8]);
            }
        }
    }
}

/// Append the low byte of each character of `s`.
pub fn push_ascii(out: &mut Vec<u8>, s: &str)
    ensures
        final(out)@ == old(out)@ + ascii(s@),
{
    let n = s.unicode_len();
    let mut i: usize = 0;
    while i < n
        invariant
            n == s@.len(),
            i <= n,
            out@ == old(out)@ + ascii(s@.take(i as int)),
        decreases n - i,
    {
        let c = s.get_char(i);
        out.push(c as u8);
        proof {
            assert(ascii(s@.take(i + 1)) =~= ascii(s@.take(i as int)).push(c as u8));
        }
        i = i + 1;
    }
    assert(s@.take(n as int) =~= s@);
}

/// Append the UTF-8 bytes of `s`.
pub fn push_utf8(out: &mut Vec<u8>, s: &str)
    ensures
        final(out)@ == old(out)@ + encode_utf8(s@),
{
    let b = s.as_bytes();
    let mut i: usize = 0;
    while i < b.len()
        invariant
            i <= b@.len(),
            b@ == encode_utf8(s@),
            out@ == old(out)@ + b@.take(i as int),
        decreases b@.len() - i,
    {
        out.push(b[i]);
        proof {
            assert(b@.take(i + 1) =~= b@.take(i as int).push(b@[i as int]));
        }
        i = i + 1;
    }
    assert(b@.take(b@.len() as int) =~= b@);
}

/// Append `n` in decimal, right-aligned in eight columns.
pub fn push_padded8(out: &mut Vec<u8>, n: u64)
    ensures
        final(out)@ == old(out)@ + pad_left(decimal(n as nat), 8),
{
    let mut digits: Vec<u8> = Vec::new();
    push_decimal(&mut digits, n);
    assert(digits@ =~= decimal(n as nat));
    let mut k: usize = digits.len();
    while k < 8
        invariant
            digits@.len() <= k <= 8 || (k == digits@.len() && k >= 8),
            digits@ == decimal(n as nat),
            out@ == old(out)@ + Seq::new((k - digits@.len()) as nat, |i: int| 32u8),
        decreases 8 - k,
    {
        out.push(32);
        proof {
            assert(Seq::new((k + 1 - digits@.len()) as nat, |i: int| 32u8)
                =~= Seq::new((k - digits@.len()) as nat, |i: int| 32u8).push(32u8));
        }
        k = k + 1;
    }
    let ghost spaces = out@;
    let mut i: usize = 0;
    while i < digits.len()
        invariant
            i <= digits@.len(),
            out@ == spaces + digits@.take(i as int),
        decreases digits@.len() - i,
    {
        out.push(digits[i]);
        proof {
            assert(digits@.take(i + 1) =~= digits@.take(i as int).push(digits@[i as int]));
        }
        i = i + 1;
    }
    proof {
        assert(digits@.take(digits@.len() as int) =~= digits@);
        if digits@.len() >= 8 {
            assert(Seq::new((k - digits@.len()) as nat, |i: int| 32u8) =~= Seq::<u8>::empty());
            assert(out@ =~= old(out)@ + pad_left(decimal(n as nat), 8));
        } else {
            assert(out@ =~= old(out)@ + pad_left(decimal(n as nat), 8));
        }
    }
}


/// Digit character of a value below 16 (lower-case letters past 9).
pub open spec fn digit_char(d: nat) -> u8 {
    if d < 10 {
        (48 + d) as u8
    } else {
        (87 + d) as u8
    }
}

/// Digits of `n` in `base`, without leading zeros.
pub open spec fn digits(n: nat, base: nat) -> Seq<u8>
    decreases n,
{
    if base < 2 || n < base {
        seq![digit_char(n)]
    } else {
        proof {
            assert(n / base < n) by (nonlinear_arith)
                requires
                    base >= 2,
                    n >= base,
            ;
        }
        digits(n / base, base).push(digit_char(n % base))
    }
}

/// `s` right-aligned in `w` columns, filled with `fill`.
pub open spec fn pad_with(s: Seq<u8>, w: nat, fill: u8) -> Seq<u8> {
    if s.len() >= w {
        s
    } else {
        Seq::new((w - s.len()) as nat, |i: int| fill) + s
    }
}

/// `s` left-aligned in `w` columns, filled with spaces.
pub open spec fn pad_right(s: Seq<u8>, w: nat) -> Seq<u8> {
    if s.len() >= w {
        s
    } else {
        s + Seq::new((w - s.len()) as nat, |i: int| 32u8)
    }
}

/// Append the digits of `n` in `base`.
pub fn push_digits(out: &mut Vec<u8>, n: u64, base: u64)
    requires
        2 <= base <= 16,
    ensures
        final(out)@ == old(out)@ + digits(n as nat, base as nat),
    decreases n,
{
    if n >= base {
        assert(n / base < n) by (nonlinear_arith)
            requires
                base >= 2,
                n >= base,
        ;
        push_digits(out, n / base, base);
    }
    let d = n % base;
    assert(d < base) by (nonlinear_arith)
        requires
            base >= 2,
            d == n % base,
    ;
    let c: u8 = if d < 10 { 48 + d as u8 } else { 87 + d as u8 };
    out.push(c);
    proof {
        if n < base {
            assert(n % base == n) by (nonlinear_arith)
                requires
                    n < base,
            ;
            assert(final(out)@ =~= old(out)@ + digits(n as nat, base as nat));
        }
    }
}

/// Append `s` right-aligned in `w` columns, filled with `fill`.
pub fn push_padded(out: &mut Vec<u8>, s: &Vec<u8>, w: usize, fill: u8)
    ensures
        final(out)@ == old(out)@ + pad_with(s@, w as nat, fill),
{
    let mut k: usize = s.len();
    while k < w
        invariant
            s@.len() <= k <= w || (k == s@.len() && k >= w),
            out@ == old(out)@ + Seq::new((k - s@.len()) as nat, |i: int| fill),
        decreases w - k,
    {
        out.push(fill);
        proof {
            assert(Seq::new((k + 1 - s@.len()) as nat, |i: int| fill)
                =~= Seq::new((k - s@.len()) as nat, |i: int| fill).push(fill));
        }
        k = k + 1;
    }
    let ghost filled = out@;
    let mut i: usize = 0;
    while i < s.len()
        invariant
            i <= s@.len(),
            out@ == filled + s@.take(i as int),
        decreases s@.len() - i,
    {
        out.push(s[i]);
        proof {
            assert(s@.take(i + 1) =~= s@.take(i as int).push(s@[i as int]));
        }
        i = i + 1;
    }
    proof {
        assert(s@.take(s@.len() as int) =~= s@);
        if s@.len() >= w {
            assert(Seq::new((k - s@.len()) as nat, |i: int| fill) =~= Seq::<u8>::empty());
        }
        assert(out@ =~= old(out)@ + pad_with(s@, w as nat, fill));
    }
}

/// Append all of `s`.
pub fn push_all(out: &mut Vec<u8>, s: &Vec<u8>)
    ensures
        final(out)@ == old(out)@ + s@,
{
    let mut i: usize = 0;
    while i < s.len()
        invariant
            i <= s@.len(),
            out@ == old(out)@ + s@.take(i as int),
        decreases s@.len() - i,
    {
        out.push(s[i]);
        proof {
            assert(s@.take(i + 1) =~= s@.take(i as int).push(s@[i as int]));
        }
        i = i + 1;
    }
    assert(s@.take(s@.len() as int) =~= s@);
}

/// The digits of `n` in `base`.
pub fn digits_of(n: u64, base: u64) -> (r: Vec<u8>)
    requires
        2 <= base <= 16,
    ensures
        r@ == digits(n as nat, base as nat),
{
    let mut r: Vec<u8> = Vec::new();
    push_digits(&mut r, n, base);
    assert(r@ =~= digits(n as nat, base as nat));
    r
}

} // verus!
