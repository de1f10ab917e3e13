//! Decimal rendering of integers into strings, as `format!("{}", n)` writes them.

use vstd::prelude::*;

verus! {

/// The character of a decimal digit `d < 10`.
pub open spec fn digit_char(d: nat) -> char {
    (48 + d) as char
}

/// The decimal digits of `n`, most significant first, without leading zeros
/// (`"0"` for zero).
pub open spec fn decimal(n: nat) -> Seq<char>
    decreases n,
{
    if n < 10 {
        seq![digit_char(n)]
    } else {
        decimal(n / 10).push(digit_char(n % 10))
    }
}

/// The decimal rendering of a signed number: a minus sign before the digits of
/// its magnitude when it is negative.
pub open spec fn signed_decimal(n: int) -> Seq<char> {
    if n < 0 {
        seq!['-'] + decimal((-n) as nat)
    } else {
        decimal(n as nat)
    }
}

/// Whether a character is a decimal digit.
pub open spec fn is_digit(c: char) -> bool {
    48 <= c as u32 <= 57
}

/// The decimal rendering of a number is made of digits, one for numbers
/// below ten and at least two for the others.
pub proof fn lemma_decimal_digits(n: nat)
    ensures
        decimal(n).len() >= 1,
        n < 10 <==> decimal(n).len() == 1,
        forall|i: int| 0 <= i < decimal(n).len() ==> is_digit(#[trigger] decimal(n)[i]),
    decreases n,
{
    if n >= 10 {
        lemma_decimal_digits(n / 10);
        let p = decimal(n / 10);
        assert forall|i: int| 0 <= i < decimal(n).len() implies is_digit(#[trigger] decimal(n)[i]) by {
            if i < p.len() {
                assert(decimal(n)[i] == p[i]);
            }
        }
    }
}

/// Different numbers have different decimal renderings.
pub proof fn law_decimal_injective(n: nat, m: nat)
    requires
        decimal(n) == decimal(m),
    ensures
        n == m,
    decreases n,
{
    lemma_decimal_digits(n);
    lemma_decimal_digits(m);
    if n < 10 && m < 10 {
        assert(decimal(n)[0] == digit_char(n));
        assert(decimal(m)[0] == digit_char(m));
        assert(digit_char(n) as u32 == 48 + n);
        assert(digit_char(m) as u32 == 48 + m);
    } else if n >= 10 && m >= 10 {
        let dn = decimal(n);
        assert(dn.last() == digit_char(n % 10));
        assert(dn.last() == digit_char(m % 10));
        assert(digit_char(n % 10) as u32 == 48 + n % 10);
        assert(digit_char(m % 10) as u32 == 48 + m % 10);
        assert(decimal(n / 10) =~= dn.drop_last());
        assert(decimal(m / 10) =~= dn.drop_last());
        law_decimal_injective(n / 10, m / 10);
    }
}

/// The number a digit character stands for.
pub open spec fn digit_value(c: char) -> int {
    c as int - 48
}

/// The number a string of decimal digits stands for, most significant digit
/// first.
pub open spec fn decimal_value(s: Seq<char>) -> int
    decreases s.len(),
{
    if s.len() == 0 {
        0
    } else {
        decimal_value(s.drop_last()) * 10 + digit_value(s.last())
    }
}

/// The number a decimal numeral with an optional leading minus sign stands
/// for.
pub open spec fn signed_value(s: Seq<char>) -> int {
    if s.len() > 0 && s[0] == '-' {
        -decimal_value(s.drop_first())
    } else {
        decimal_value(s)
    }
}

/// A non-empty string of decimal digits without leading zeros (`"0"` alone
/// for zero).
pub open spec fn is_numeral(s: Seq<char>) -> bool {
    &&& s.len() > 0
    &&& forall|i: int| 0 <= i < s.len() ==> is_digit(#[trigger] s[i])
    &&& (s.len() == 1 || s[0] != '0')
}

/// A numeral, or a minus sign followed by a numeral other than `"0"`.
pub open spec fn is_signed_numeral(s: Seq<char>) -> bool {
    is_numeral(s) || (s.len() > 0 && s[0] == '-' && is_numeral(s.drop_first()) && s.drop_first()[0] != '0')
}

/// Whether `s` holds no character `c`.
pub open spec fn lacks(s: Seq<char>, c: char) -> bool {
    forall|i: int| 0 <= i < s.len() ==> s[i] != c
}

/// Read back, the decimal rendering of a number gives the number; it is a
/// numeral.
pub proof fn law_decimal_reads_back(n: nat)
    ensures
        decimal_value(decimal(n)) == n,
        is_numeral(decimal(n)),
        n > 0 ==> decimal(n)[0] != '0',
    decreases n,
{
    lemma_decimal_digits(n);
    let d = decimal(n);
    if n < 10 {
        assert(d[0] == digit_char(n));
        assert(d.drop_last() =~= Seq::<char>::empty());
        assert(decimal_value(Seq::<char>::empty()) == 0);
        assert(d.last() == digit_char(n));
        assert(digit_char(n) as u32 == 48 + n);
        assert(digit_value(d.last()) == n);
    } else {
        law_decimal_reads_back(n / 10);
        assert(d.drop_last() =~= decimal(n / 10));
        assert(d[0] == decimal(n / 10)[0]);
        assert(d.last() == digit_char(n % 10));
        assert(digit_char(n % 10) as u32 == 48 + n % 10);
        assert(digit_value(d.last()) == n % 10);
        assert(decimal_value(d) == decimal_value(decimal(n / 10)) * 10 + n % 10);
    }
}

/// Read back, the signed decimal rendering of a number gives the number; it
/// is a signed numeral.
pub proof fn law_signed_decimal_reads_back(n: int)
    ensures
        signed_value(signed_decimal(n)) == n,
        is_signed_numeral(signed_decimal(n)),
{
    if n < 0 {
        let m = (-n) as nat;
        law_decimal_reads_back(m);
        let s = signed_decimal(n);
        assert(s.drop_first() =~= decimal(m));
    } else {
        law_decimal_reads_back(n as nat);
        assert(is_digit(decimal(n as nat)[0]));
    }
}

/// A signed numeral holds neither a character that is no digit nor the
/// minus sign.
pub proof fn lemma_signed_numeral_lacks(s: Seq<char>, c: char)
    requires
        is_signed_numeral(s),
        !is_digit(c),
        c != '-',
    ensures
        lacks(s, c),
{
    assert forall|i: int| 0 <= i < s.len() implies s[i] != c by {
        if !is_numeral(s) && i > 0 {
            assert(s[i] == s.drop_first()[i - 1]);
        }
    }
}

/// Text without the character `sep`, followed by `sep`, splits there only
/// one way.
pub proof fn lemma_split_at(a: Seq<char>, b: Seq<char>, c: Seq<char>, d: Seq<char>, sep: char)
    requires
        a + seq![sep] + b == c + seq![sep] + d,
        lacks(a, sep),
        lacks(c, sep),
    ensures
        a == c,
        b == d,
{
    let u = a + seq![sep] + b;
    let v = c + seq![sep] + d;
    if a.len() < c.len() {
        assert(u[a.len() as int] == sep);
        assert(v[a.len() as int] == c[a.len() as int]);
    } else if c.len() < a.len() {
        assert(v[c.len() as int] == sep);
        assert(u[c.len() as int] == a[c.len() as int]);
    }
    assert(a =~= u.take(a.len() as int));
    assert(c =~= v.take(c.len() as int));
    assert(b =~= u.skip((a.len() + 1) as int));
    assert(d =~= v.skip((c.len() + 1) as int));
}

/// Text that ends in the same suffix is equal where what comes before it is.
pub proof fn lemma_drop_suffix(a: Seq<char>, b: Seq<char>, e: Seq<char>)
    requires
        a + e == b + e,
    ensures
        a == b,
{
    assert((a + e).len() == a.len() + e.len());
    assert((b + e).len() == b.len() + e.len());
    assert(a.len() == b.len());
    assert(a =~= (a + e).take(a.len() as int));
    assert(b =~= (b + e).take(b.len() as int));
}

/// Text that starts with the same prefix is equal where what follows it is.
pub proof fn lemma_drop_prefix(p: Seq<char>, a: Seq<char>, b: Seq<char>)
    requires
        p + a == p + b,
    ensures
        a == b,
{
    assert(a =~= (p + a).skip(p.len() as int));
    assert(b =~= (p + b).skip(p.len() as int));
}

/// `String::push`: the character is appended.
#[verifier::external_body]
pub fn push_char(s: &mut String, c: char)
    ensures
        final(s)@ == old(s)@.push(c),
{
    s.push(c)
}

/// The character of digit `d`.
fn digit(d: u64) -> (c: char)
    requires
        d < 10,
    ensures
        c == digit_char(d as nat),
{
    match d {
        0 => '0',
        1 => '1',
        2 => '2',
        3 => '3',
        4 => '4',
        5 => '5',
        6 => '6',
        7 => '7',
        8 => '8',
        _ => '9',
    }
}

/// Append the decimal digits of `n`.
pub fn push_decimal(s: &mut String, n: u64)
    ensures
        final(s)@ == old(s)@ + decimal(n as nat),
    decreases n,
{
    if n >= 10 {
        push_decimal(s, n / 10);
    }
    push_char(s, digit(n % 10));
    proof {
        if n >= 10 {
            assert(decimal(n as nat) == decimal((n / 10) as nat).push(digit_char((n % 10) as nat)));
        }
    }
}

/// Append the decimal rendering of a signed number.
pub fn push_signed_decimal(s: &mut String, n: i64)
    ensures
        final(s)@ == old(s)@ + signed_decimal(n as int),
{
    if n < 0 {
        push_char(s, '-');
        let m: u64 = if n == i64::MIN {
            0x8000_0000_0000_0000u64
        } else {
            (-n) as u64
        };
        push_decimal(s, m);
        assert(s@ == old(s)@ + (seq!['-'] + decimal((-n) as nat)));
    } else {
        push_decimal(s, n as u64);
    }
}

} // verus!
