//! Decimal digit strings: the non-negative integers they denote, parsing
//! with overflow detection, and printing.

use vstd::prelude::*;

verus! {

/// An ASCII decimal digit, `'0'` through `'9'`.
pub open spec fn is_digit(b: u8) -> bool {
    48 <= b && b <= 57
}

/// Every byte of `s` is an ASCII decimal digit.
pub open spec fn all_digits(s: Seq<u8>) -> bool {
    forall|i: int| 0 <= i < s.len() ==> is_digit(#[trigger] s[i])
}

/// The number denoted by the digit string `s`, most significant digit first.
pub open spec fn dec_val(s: Seq<u8>) -> int
    decreases s.len(),
{
    if s.len() == 0 {
        0
    } else {
        dec_val(s.drop_last()) * 10 + s.last() - 48
    }
}

/// A digit string denotes a non-negative number.
pub proof fn lemma_dec_val_nonneg(s: Seq<u8>)
    requires
        all_digits(s),
    ensures
        dec_val(s) >= 0,
    decreases s.len(),
{
    if s.len() > 0 {
        assert(all_digits(s.drop_last()));
        lemma_dec_val_nonneg(s.drop_last());
    }
}

/// Extending a digit string can only increase its value: the value of a
/// prefix never exceeds the value of the whole string.
pub proof fn lemma_dec_val_prefix_le(s: Seq<u8>, i: int)
    requires
        all_digits(s),
        0 <= i <= s.len(),
    ensures
        dec_val(s.take(i)) <= dec_val(s),
    decreases s.len() - i,
{
    if i < s.len() {
        lemma_dec_val_prefix_le(s, i + 1);
        assert(s.take(i + 1).drop_last() =~= s.take(i));
        assert(dec_val(s.take(i + 1)) == dec_val(s.take(i)) * 10 + s[i] - 48);
        assert(all_digits(s.take(i)));
        lemma_dec_val_nonneg(s.take(i));
    } else {
        assert(s.take(i) =~= s);
    }
}

/// Rejected decimal input: empty, a non-digit byte, or a value over
/// `usize::MAX`.
#[derive(Clone, Copy, Debug, PartialEq, Eq, Structural)]
pub struct ParseIntError;

/// Parses `bytes` as a non-negative decimal integer.
///
/// Succeeds exactly on non-empty all-digit strings whose value fits in
/// `usize`, and then returns that value; rejects empty input, any
/// non-digit byte, and overflow.
pub fn usize_from_bytes(bytes: &[u8]) -> (r: Result<usize, ParseIntError>)
    ensures
        r is Ok <==> bytes@.len() > 0 && all_digits(bytes@) && dec_val(bytes@) <= usize::MAX,
        r is Ok ==> r->Ok_0 == dec_val(bytes@),
{
    if bytes.len() == 0 {
        return Err(ParseIntError);
    }
    let mut value: usize = 0;
    let mut i: usize = 0;
    while i < bytes.len()
        invariant
            0 <= i <= bytes@.len(),
            all_digits(bytes@.take(i as int)),
            value == dec_val(bytes@.take(i as int)),
        decreases bytes@.len() - i,
    {
        let byte = bytes[i];
        if !(48 <= byte && byte <= 57) {
            return Err(ParseIntError);
        }
        assert(bytes@.take(i + 1).drop_last() =~= bytes@.take(i as int));
        let shifted = match value.checked_mul(10) {
            Some(v) => v,
            None => {
                proof {
                    lemma_overflow_propagates(bytes@, i as int);
                }
                return Err(ParseIntError);
            },
        };
        value = match shifted.checked_add((byte - 48) as usize) {
            Some(v) => v,
            None => {
                proof {
                    lemma_overflow_propagates(bytes@, i as int);
                }
                return Err(ParseIntError);
            },
        };
        i = i + 1;
    }
    assert(bytes@.take(i as int) =~= bytes@);
    Ok(value)
}

/// If the value of `s` is already over `usize::MAX` after the digit at
/// position `i`, the value of all of `s` is over `usize::MAX` as well.
proof fn lemma_overflow_propagates(s: Seq<u8>, i: int)
    requires
        0 <= i < s.len(),
        all_digits(s.take(i)),
        is_digit(s[i]),
        dec_val(s.take(i)) * 10 + s[i] - 48 > usize::MAX,
    ensures
        !(all_digits(s) && dec_val(s) <= usize::MAX),
{
    if all_digits(s) {
        assert(s.take(i + 1).drop_last() =~= s.take(i));
        assert(dec_val(s.take(i + 1)) == dec_val(s.take(i)) * 10 + s[i] - 48);
        lemma_dec_val_prefix_le(s, i + 1);
    }
}

/// Prints `n` in decimal: digits only, no leading zero except for `"0"`
/// itself, and parsing the result gives `n` back.
pub fn usize_to_decimal(n: usize) -> (r: Vec<u8>)
    ensures
        r@.len() > 0,
        all_digits(r@),
        dec_val(r@) == n,
        r@[0] != 48 || r@.len() == 1,
{
    let mut digits: Vec<u8> = Vec::new();
    let mut rest: usize = n;
    // Least significant digit first, then reverse.
    loop
        invariant_except_break
            rest == 0 ==> digits@.len() == 0 && n == 0,
        invariant
            all_digits(digits@),
            rev_val(digits@) + rest * pow10(digits@.len() as nat) == n,
        ensures
            all_digits(digits@),
            rev_val(digits@) == n,
            digits@.len() > 0,
            digits@.last() != 48 || digits@.len() == 1,
        decreases rest,
    {
        let d = (rest % 10) as u8;
        let next = rest / 10;
        proof {
            lemma_rev_push(digits@, (d + 48) as u8, rest, n as int);
        }
        digits.push(d + 48);
        let ghost prev = rest;
        rest = next;
        if rest == 0 {
            proof {
                assert(rest * pow10(digits@.len() as nat) == 0) by (nonlinear_arith)
                    requires rest == 0,
                {}
                if prev == 0 {
                    assert(digits@.len() == 1);
                } else {
                    assert(prev % 10 == prev) by (nonlinear_arith)
                        requires prev > 0 && prev / 10 == 0,
                    {}
                    assert(digits@.last() == prev + 48);
                }
            }
            break;
        }
    }
    let mut out: Vec<u8> = Vec::new();
    let mut i: usize = digits.len();
    while i > 0
        invariant
            0 <= i <= digits@.len(),
            all_digits(digits@),
            out@ =~= digits@.skip(i as int).reverse(),
        decreases i,
    {
        i = i - 1;
        let d = digits[i];
        out.push(d);
        proof {
            assert(out@ =~= digits@.skip(i as int).reverse());
        }
    }
    proof {
        assert(digits@.skip(0) =~= digits@);
        assert(out@ =~= digits@.reverse());
        lemma_rev_val_reverse(digits@);
        assert(out@[0] == digits@.last());
    }
    out
}

/// The canonical decimal digit string of `n`: no leading zero except for
/// `"0"` itself.
pub open spec fn dec_digits(n: int) -> Seq<u8>
    decreases n,
{
    if n < 10 {
        seq![(n + 48) as u8]
    } else {
        dec_digits(n / 10).push((n % 10 + 48) as u8)
    }
}

/// The canonical digit string of a non-negative `n` is made of digits,
/// denotes `n`, and has no leading zero.
pub proof fn lemma_dec_digits_props(n: int)
    requires
        n >= 0,
    ensures
        all_digits(dec_digits(n)),
        dec_digits(n).len() > 0,
        dec_val(dec_digits(n)) == n,
        dec_digits(n)[0] != 48 || dec_digits(n).len() == 1,
    decreases n,
{
    if n < 10 {
        let s = dec_digits(n);
        assert(s =~= seq![(n + 48) as u8]);
        assert(s.drop_last() =~= Seq::<u8>::empty());
        assert(dec_val(Seq::<u8>::empty()) == 0);
        assert(s.last() == (n + 48) as u8);
        assert(dec_val(s) == dec_val(s.drop_last()) * 10 + s.last() - 48);
    } else {
        let q = n / 10;
        let r = n % 10;
        assert(0 < q < n && 0 <= r < 10 && n == q * 10 + r) by (nonlinear_arith)
            requires
                n >= 10,
                q == n / 10,
                r == n % 10,
        {}
        lemma_dec_digits_props(q);
        let s = dec_digits(q).push((r + 48) as u8);
        assert(s.drop_last() =~= dec_digits(q));
        assert(s.last() == (r + 48) as u8);
        assert(dec_val(s) == dec_val(dec_digits(q)) * 10 + r);
        assert(s[0] == dec_digits(q)[0]);
        assert forall|i: int| 0 <= i < s.len() implies is_digit(#[trigger] s[i]) by {
            if i < s.len() - 1 {
                assert(s[i] == dec_digits(q)[i]);
            }
        }
        if dec_digits(q).len() == 1 {
            assert(dec_digits(q)[0] != 48) by {
                if dec_digits(q)[0] == 48 {
                    let t = dec_digits(q);
                    assert(t.drop_last() =~= Seq::<u8>::empty());
                    assert(dec_val(Seq::<u8>::empty()) == 0);
                    assert(t.last() == t[0]);
                    assert(dec_val(t) == dec_val(t.drop_last()) * 10 + t.last() - 48);
                }
            }
        }
    }
}

/// A digit string with no leading zero denotes at least ten to the power
/// of one less than its length.
pub proof fn lemma_dec_lower_bound(s: Seq<u8>)
    requires
        all_digits(s),
        s.len() >= 1,
        s[0] != 48,
    ensures
        dec_val(s) >= pow10((s.len() - 1) as nat),
    decreases s.len(),
{
    if s.len() == 1 {
        assert(dec_val(s) == dec_val(s.drop_last()) * 10 + s[0] - 48);
    } else {
        let s1 = s.drop_last();
        assert(all_digits(s1));
        assert(s1[0] == s[0]);
        lemma_dec_lower_bound(s1);
        assert(dec_val(s) == dec_val(s1) * 10 + s.last() - 48);
        assert(dec_val(s1) * 10 >= pow10((s1.len() - 1) as nat) * 10) by (nonlinear_arith)
            requires dec_val(s1) >= pow10((s1.len() - 1) as nat),
        {}
        assert(pow10((s.len() - 1) as nat) == 10 * pow10((s.len() - 2) as nat));
    }
}

/// A number has only one digit string that denotes it without a leading
/// zero: decimal printing is the inverse of decimal parsing.
pub proof fn lemma_dec_unique(a: Seq<u8>, b: Seq<u8>)
    requires
        all_digits(a),
        all_digits(b),
        a.len() > 0,
        b.len() > 0,
        a[0] != 48 || a.len() == 1,
        b[0] != 48 || b.len() == 1,
        dec_val(a) == dec_val(b),
    ensures
        a == b,
    decreases a.len() + b.len(),
{
    if a.len() == 1 && b.len() == 1 {
        assert(dec_val(a) == dec_val(a.drop_last()) * 10 + a[0] - 48);
        assert(dec_val(b) == dec_val(b.drop_last()) * 10 + b[0] - 48);
        assert(a =~= b);
    } else if a.len() >= 2 && b.len() >= 2 {
        let a1 = a.drop_last();
        let b1 = b.drop_last();
        assert(all_digits(a1) && all_digits(b1));
        lemma_dec_val_nonneg(a1);
        lemma_dec_val_nonneg(b1);
        assert(dec_val(a) == dec_val(a1) * 10 + a.last() - 48);
        assert(dec_val(b) == dec_val(b1) * 10 + b.last() - 48);
        assert(dec_val(a1) == dec_val(b1) && a.last() == b.last()) by (nonlinear_arith)
            requires
                dec_val(a1) * 10 + a.last() - 48 == dec_val(b1) * 10 + b.last() - 48,
                dec_val(a1) >= 0,
                dec_val(b1) >= 0,
                is_digit(a.last()),
                is_digit(b.last()),
        {}
        assert(a1[0] == a[0] && b1[0] == b[0]);
        lemma_dec_unique(a1, b1);
        assert(a =~= a1.push(a.last()));
        assert(b =~= b1.push(b.last()));
    } else if a.len() == 1 {
        lemma_dec_lower_bound(b);
        lemma_pow10_ge_ten(((b.len() - 1) as nat));
        assert(dec_val(a) == dec_val(a.drop_last()) * 10 + a[0] - 48);
    } else {
        lemma_dec_lower_bound(a);
        lemma_pow10_ge_ten(((a.len() - 1) as nat));
        assert(dec_val(b) == dec_val(b.drop_last()) * 10 + b[0] - 48);
    }
}

/// Ten to a positive power is at least ten.
proof fn lemma_pow10_ge_ten(k: nat)
    requires
        k >= 1,
    ensures
        pow10(k) >= 10,
    decreases k,
{
    if k == 1 {
        assert(pow10(1) == 10 * pow10(0));
    } else {
        lemma_pow10_ge_ten((k - 1) as nat);
        assert(pow10(k) == 10 * pow10((k - 1) as nat));
    }
}

/// Ten to the power `k`.
pub open spec fn pow10(k: nat) -> int
    decreases k,
{
    if k == 0 {
        1
    } else {
        10 * pow10((k - 1) as nat)
    }
}

/// The number denoted by `s` read least significant digit first.
pub open spec fn rev_val(s: Seq<u8>) -> int
    decreases s.len(),
{
    if s.len() == 0 {
        0
    } else {
        (s[0] - 48) + 10 * rev_val(s.drop_first())
    }
}

/// Pushing the next digit of `rest` onto the low-order digit string keeps
/// the combined value unchanged.
proof fn lemma_rev_push(s: Seq<u8>, d: u8, rest: usize, m: int)
    requires
        all_digits(s),
        is_digit(d),
        rev_val(s) + rest * pow10(s.len() as nat) == m,
        d == (rest % 10) + 48,
    ensures
        rev_val(s.push(d)) + (rest / 10) * pow10(s.push(d).len() as nat) == m,
    decreases s.len(),
{
    if s.len() == 0 {
        assert(s.push(d).len() == 1);
        assert(s.push(d)[0] == d);
        assert(s.push(d).drop_first() =~= Seq::<u8>::empty());
        assert(rev_val(Seq::<u8>::empty()) == 0);
        assert(rev_val(s.push(d)) == d - 48);
        assert(pow10(0) == 1);
        assert(pow10(1) == 10);
        assert(rev_val(s) == 0);
        assert(rest == (rest / 10) * 10 + (rest % 10)) by (nonlinear_arith);
        assert((rest / 10) * pow10(1) == (rest / 10) * 10);
        assert(rest * pow10(0) == rest) by (nonlinear_arith)
            requires pow10(0) == 1,
        {}
        assert(m == rest);
        assert(rev_val(s.push(d)) + (rest / 10) * pow10(s.push(d).len() as nat) == m);
    } else {
        let s2 = s.drop_first();
        assert(s.push(d).drop_first() =~= s2.push(d));
        let m2 = rev_val(s2) + rest * pow10(s2.len() as nat);
        assert(rest * pow10(s.len() as nat) == 10 * (rest * pow10(s2.len() as nat)))
            by (nonlinear_arith)
            requires
                pow10(s.len() as nat) == 10 * pow10(s2.len() as nat),
                s2.len() == s.len() - 1,
        {}
        assert(m == (s[0] - 48) + 10 * m2);
        lemma_rev_push(s2, d, rest, m2);
        assert((rest / 10) * pow10(s.push(d).len() as nat) == 10 * ((rest / 10) * pow10(
            s2.push(d).len() as nat,
        ))) by (nonlinear_arith)
            requires
                pow10(s.push(d).len() as nat) == 10 * pow10(s2.push(d).len() as nat),
                s2.push(d).len() == s.push(d).len() - 1,
        {}
        assert(s.push(d)[0] == s[0]);
        assert(rev_val(s.push(d)) == (s[0] - 48) + 10 * rev_val(s2.push(d)));
        assert(rev_val(s.push(d)) + (rest / 10) * pow10(s.push(d).len() as nat) == m);
    }
}

/// Reading a digit string least significant digit first and reversing it
/// give the same number.
proof fn lemma_rev_val_reverse(s: Seq<u8>)
    requires
        all_digits(s),
    ensures
        dec_val(s.reverse()) == rev_val(s),
    decreases s.len(),
{
    if s.len() > 0 {
        assert(all_digits(s.drop_first()));
        lemma_rev_val_reverse(s.drop_first());
        assert(s.reverse().drop_last() =~= s.drop_first().reverse());
        assert(s.reverse().last() == s[0]);
        assert(dec_val(s.reverse()) == dec_val(s.drop_first().reverse()) * 10 + s[0] - 48);
    }
}

} // verus!
