//! Conversions between borrowed string slices and the character buffers the
//! scanner and the grammar engine work on.

use vstd::prelude::*;
use vstd::string::StrSliceExecFns;

verus! {

/// Copies a string slice into a character buffer.
pub fn str_to_chars(s: &str) -> (v: Vec<char>)
    ensures
        v@ == s@,
{
    let n = s.unicode_len();
    let mut v: Vec<char> = Vec::new();
    let mut i: usize = 0;
    while i < n
        invariant
            i <= n,
            n == s@.len(),
            v@ =~= s@.subrange(0, i as int),
        decreases n - i,
    {
        v.push(s.get_char(i));
        i = i + 1;
    }
    proof {
        assert(v@ =~= s@);
    }
    v
}

/// Collects a character buffer into an owned string.
///
/// Relies on `String: FromIterator<char>`: collecting characters yields the
/// string of exactly those characters in order.
#[verifier::external_body]
pub fn chars_to_string(v: &[char]) -> (s: String)
    ensures
        s@ == v@,
{
    v.iter().collect()
}

/// Copies the range `from..to` out of a character buffer.
pub fn chars_range(v: &Vec<char>, from: usize, to: usize) -> (r: Vec<char>)
    requires
        from <= to <= v@.len(),
    ensures
        r@ == v@.subrange(from as int, to as int),
{
    let mut r: Vec<char> = Vec::new();
    let mut i: usize = from;
    while i < to
        invariant
            from <= i <= to <= v@.len(),
            r@ =~= v@.subrange(from as int, i as int),
        decreases to - i,
    {
        r.push(v[i]);
        i = i + 1;
    }
    proof {
        assert(r@ =~= v@.subrange(from as int, to as int));
    }
    r
}

/// The string of the range `from..to` of a character buffer.
pub fn string_of_range(v: &Vec<char>, from: usize, to: usize) -> (s: String)
    requires
        from <= to <= v@.len(),
    ensures
        s@ == v@.subrange(from as int, to as int),
{
    let r = chars_range(v, from, to);
    chars_to_string(r.as_slice())
}

/// The decimal digit character for a value below ten.
pub open spec fn spec_digit_char(d: int) -> char {
    if d == 0 {
        '0'
    } else if d == 1 {
        '1'
    } else if d == 2 {
        '2'
    } else if d == 3 {
        '3'
    } else if d == 4 {
        '4'
    } else if d == 5 {
        '5'
    } else if d == 6 {
        '6'
    } else if d == 7 {
        '7'
    } else if d == 8 {
        '8'
    } else {
        '9'
    }
}

/// The decimal digit string of a natural number, most significant digit
/// first, without leading zeroes (except for zero itself).
pub open spec fn spec_decimal_digits(n: nat) -> Seq<char>
    decreases n,
{
    if n < 10 {
        seq![spec_digit_char(n as int)]
    } else {
        spec_decimal_digits(n / 10) + seq![spec_digit_char((n % 10) as int)]
    }
}

/// The decimal digit string is never empty, and has at least two digits for
/// values of ten or more.
pub proof fn lemma_decimal_digits_len(n: nat)
    ensures
        spec_decimal_digits(n).len() >= 1,
        n >= 10 ==> spec_decimal_digits(n).len() >= 2,
    decreases n,
{
    if n >= 10 {
        lemma_decimal_digits_len(n / 10);
    }
}

/// Distinct numbers have distinct decimal digit strings.
pub proof fn lemma_decimal_digits_injective(m: nat, n: nat)
    requires
        spec_decimal_digits(m) == spec_decimal_digits(n),
    ensures
        m == n,
    decreases m,
{
    lemma_decimal_digits_len(m);
    lemma_decimal_digits_len(n);
    if m < 10 && n < 10 {
        assert(seq![spec_digit_char(m as int)][0] == spec_digit_char(m as int));
        assert(seq![spec_digit_char(n as int)][0] == spec_digit_char(n as int));
        assert(spec_digit_char(m as int) == spec_digit_char(n as int));
    } else if m < 10 {
        assert(spec_decimal_digits(m).len() == 1);
        assert(false);
    } else if n < 10 {
        assert(spec_decimal_digits(n).len() == 1);
        assert(false);
    } else {
        let dm = spec_decimal_digits(m);
        let dn = spec_decimal_digits(n);
        assert(dm.last() == dn.last());
        assert(spec_digit_char((m % 10) as int) == spec_digit_char((n % 10) as int));
        assert(m % 10 == n % 10);
        assert(dm.drop_last() =~= spec_decimal_digits(m / 10));
        assert(dn.drop_last() =~= spec_decimal_digits(n / 10));
        lemma_decimal_digits_injective(m / 10, n / 10);
    }
}

fn digit_char(d: u64) -> (c: char)
    requires
        d < 10,
    ensures
        c == spec_digit_char(d as int),
{
    if d == 0 {
        '0'
    } else if d == 1 {
        '1'
    } else if d == 2 {
        '2'
    } else if d == 3 {
        '3'
    } else if d == 4 {
        '4'
    } else if d == 5 {
        '5'
    } else if d == 6 {
        '6'
    } else if d == 7 {
        '7'
    } else if d == 8 {
        '8'
    } else {
        '9'
    }
}

/// Appends the decimal digits of `n` to a character buffer.
pub fn push_decimal(n: u64, out: &mut Vec<char>)
    ensures
        final(out)@ == old(out)@ + spec_decimal_digits(n as nat),
    decreases n,
{
    if n < 10 {
        out.push(digit_char(n));
    } else {
        push_decimal(n / 10, out);
        out.push(digit_char(n % 10));
    }
}

} // verus!
