use vstd::prelude::*;

verus! {

/// The lowercase hexadecimal digit of `n < 16`, in ASCII.
pub open spec fn hex_digit(n: int) -> u8 {
    if n < 10 {
        (48 + n) as u8
    } else {
        (87 + n) as u8
    }
}

/// A byte as two lowercase hexadecimal digits.
pub open spec fn hex2(b: u8) -> Seq<u8> {
    seq![hex_digit((b / 16) as int), hex_digit((b % 16) as int)]
}

/// A 16-bit value as four lowercase hexadecimal digits.
pub open spec fn hex4(v: u16) -> Seq<u8> {
    hex2((v / 256) as u8) + hex2((v % 256) as u8)
}

/// A natural number in decimal, without leading zeros.
pub open spec fn decimal(n: nat) -> Seq<u8>
    decreases n,
{
    if n < 10 {
        seq![(48 + n) as u8]
    } else {
        decimal(n / 10).push((48 + n % 10) as u8)
    }
}

/// The number a string of decimal digits spells, most significant first.
pub open spec fn digits_value(s: Seq<u8>) -> int
    decreases s.len(),
{
    if s.len() == 0 {
        0
    } else {
        digits_value(s.drop_last()) * 10 + (s.last() - 48)
    }
}

/// Every byte is an ASCII decimal digit.
pub open spec fn all_digits(s: Seq<u8>) -> bool {
    forall|i: int| 0 <= i < s.len() ==> 48 <= #[trigger] s[i] <= 57
}

/// The decimal text of `n` is a non-empty string of digits that reads back
/// as `n`, and it starts with a zero only when `n` is zero.
pub proof fn lemma_decimal_reads_back(n: nat)
    ensures
        decimal(n).len() >= 1,
        all_digits(decimal(n)),
        digits_value(decimal(n)) == n,
        decimal(n)[0] == 48u8 ==> n == 0,
    decreases n,
{
    if n >= 10 {
        lemma_decimal_reads_back(n / 10);
        let s = decimal(n);
        assert(s.drop_last() =~= decimal(n / 10));
        assert(s[0] == decimal(n / 10)[0]);
        assert(s.last() == (48 + n % 10) as u8);
        assert(digits_value(s) == digits_value(decimal(n / 10)) * 10 + n % 10);
        assert(n == (n / 10) * 10 + n % 10);
    } else {
        let s = decimal(n);
        assert(s.drop_last() =~= Seq::<u8>::empty());
        assert(digits_value(s) == digits_value(s.drop_last()) * 10 + (s.last() - 48));
    }
}

/// The value of a lowercase hexadecimal digit.
pub open spec fn hex_digit_value(c: u8) -> int {
    if c <= 57 { c - 48 } else { c - 87 }
}

/// A lowercase hexadecimal digit: `0`-`9` or `a`-`f`.
pub open spec fn is_hex_digit(c: u8) -> bool {
    (48 <= c <= 57) || (97 <= c <= 102)
}

/// The two hexadecimal digits of a byte are digits and read back as the
/// byte, high digit first.
pub proof fn lemma_hex2_reads_back(b: u8)
    ensures
        hex2(b).len() == 2,
        is_hex_digit(hex2(b)[0]),
        is_hex_digit(hex2(b)[1]),
        hex_digit_value(hex2(b)[0]) * 16 + hex_digit_value(hex2(b)[1]) == b,
{
}

/// The four hexadecimal digits of a 16-bit value read back as the value.
pub proof fn lemma_hex4_reads_back(v: u16)
    ensures
        hex4(v).len() == 4,
        forall|i: int| 0 <= i < 4 ==> is_hex_digit(#[trigger] hex4(v)[i]),
        hex_digit_value(hex4(v)[0]) * 4096 + hex_digit_value(hex4(v)[1]) * 256 + hex_digit_value(hex4(v)[2]) * 16
            + hex_digit_value(hex4(v)[3]) == v,
{
    lemma_hex2_reads_back((v / 256) as u8);
    lemma_hex2_reads_back((v % 256) as u8);
}

/// An integer in decimal, with a minus sign when negative.
pub open spec fn signed_decimal(v: int) -> Seq<u8> {
    if v < 0 {
        seq![45u8] + decimal((-v) as nat)
    } else {
        decimal(v as nat)
    }
}

/// The signed decimal text of `v` is a minus sign exactly when `v` is
/// negative, followed by digits that read back as the magnitude of `v`.
pub proof fn lemma_signed_decimal_reads_back(v: int)
    ensures
        signed_decimal(v).len() >= 1,
        (signed_decimal(v)[0] == 45u8) == (v < 0),
        v < 0 ==> all_digits(signed_decimal(v).drop_first()) && digits_value(signed_decimal(v).drop_first()) == -v,
        v >= 0 ==> all_digits(signed_decimal(v)) && digits_value(signed_decimal(v)) == v,
{
    if v < 0 {
        lemma_decimal_reads_back((-v) as nat);
        assert(signed_decimal(v).drop_first() =~= decimal((-v) as nat));
    } else {
        lemma_decimal_reads_back(v as nat);
        assert(48 <= decimal(v as nat)[0] <= 57);
    }
}

/// Appends the two hexadecimal digits of `b`.
pub fn push_hex2(out: &mut Vec<u8>, b: u8)
    ensures
        final(out)@ == old(out)@ + hex2(b),
{
    let hi = b / 16;
    let lo = b % 16;
    out.push(if hi < 10 { 48 + hi } else { 87 + hi });
    out.push(if lo < 10 { 48 + lo } else { 87 + lo });
    assert(final(out)@ =~= old(out)@ + hex2(b));
}

/// Appends the four hexadecimal digits of `v`.
pub fn push_hex4(out: &mut Vec<u8>, v: u16)
    ensures
        final(out)@ == old(out)@ + hex4(v),
{
    push_hex2(out, (v / 256) as u8);
    push_hex2(out, (v % 256) as u8);
    assert(final(out)@ =~= old(out)@ + hex4(v));
}

/// Appends `n` in decimal.
pub fn push_decimal(out: &mut Vec<u8>, n: u64)
    ensures
        final(out)@ == old(out)@ + decimal(n as nat),
    decreases n,
{
    if n >= 10 {
        push_decimal(out, n / 10);
    }
    out.push(48 + (n % 10) as u8);
    assert(final(out)@ =~= old(out)@ + decimal(n as nat));
}

/// Appends `v` in decimal, with a minus sign when negative.
pub fn push_signed_decimal(out: &mut Vec<u8>, v: i64)
    ensures
        final(out)@ == old(out)@ + signed_decimal(v as int),
{
    if v < 0 {
        out.push(45);
        let magnitude: u64 = if v == i64::MIN {
            9223372036854775808u64
        } else {
            (-v) as u64
        };
        push_decimal(out, magnitude);
        assert(final(out)@ =~= old(out)@ + signed_decimal(v as int));
    } else {
        push_decimal(out, v as u64);
    }
}

/// Appends the bytes of `s`.
pub fn push_bytes(out: &mut Vec<u8>, s: &[u8])
    ensures
        final(out)@ == old(out)@ + s@,
{
    let mut i: usize = 0;
    while i < s.len()
        invariant
            0 <= i <= s.len(),
            out@ == old(out)@ + s@.take(i as int),
        decreases s.len() - i,
    {
        out.push(s[i]);
        assert(s@.take(i as int + 1) =~= s@.take(i as int).push(s@[i as int]));
        i = i + 1;
    }
    assert(s@.take(s.len() as int) =~= s@);
}

} // verus!
