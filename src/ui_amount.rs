//! Conversion between raw token amounts and their decimal ("UI") text.
use crate::error::ProgramError;
use vstd::prelude::*;
use vstd::string::StringSliceAdditionalSpecFns;

verus! {

/// Most digits a UI amount may have: the largest number of decimals, the
/// decimal point and a leading zero.
pub const MAX_FORMATTED_DIGITS: usize = 257;

pub open spec fn is_digit(c: u8) -> bool {
    48 <= c <= 57
}

pub open spec fn all_digits(s: Seq<u8>) -> bool {
    forall|i: int| 0 <= i < s.len() ==> is_digit(#[trigger] s[i])
}

/// The number that a string of decimal digits denotes.
pub open spec fn digits_value(s: Seq<u8>) -> nat
    decreases s.len(),
{
    if s.len() == 0 {
        0
    } else {
        digits_value(s.drop_last()) * 10 + (s.last() - 48) as nat
    }
}

/// A `u64` in decimal text, as `str::parse` reads it: an optional `+`,
/// then at least one digit, with a value that fits.
pub open spec fn parse_u64_text(s: Seq<u8>) -> Option<u64> {
    let t = if s.len() > 0 && s[0] == 43 { s.drop_first() } else { s };
    if t.len() > 0 && all_digits(t) && digits_value(t) <= u64::MAX {
        Some(digits_value(t) as u64)
    } else {
        None
    }
}

/// `s` without its trailing `0` characters.
pub open spec fn trim_zeros(s: Seq<u8>) -> Seq<u8>
    decreases s.len(),
{
    if s.len() > 0 && s.last() == 48 {
        trim_zeros(s.drop_last())
    } else {
        s
    }
}

/// Position of the first `.` at or after `i`, or the length.
pub open spec fn dot_from(s: Seq<u8>, i: int) -> int
    decreases s.len() - i,
{
    if i >= s.len() {
        s.len() as int
    } else if s[i] == 46 {
        i
    } else {
        dot_from(s, i + 1)
    }
}

pub open spec fn zeros(n: int) -> Seq<u8> {
    Seq::new(n as nat, |_i: int| 48u8)
}

/// The raw amount that a UI amount stands for with `decimals` decimals:
/// an integer part and an optional fraction after one `.`; trailing zeros
/// of the fraction are dropped, the fraction may have at most `decimals`
/// digits, the two parts together at most `MAX_FORMATTED_DIGITS`, and not
/// both may be empty. The integer part and the fraction, padded to
/// `decimals` digits, are read as one `u64`.
pub open spec fn ui_amount_value(s: Seq<u8>, decimals: u8) -> Option<u64> {
    let d = dot_from(s, 0);
    let after = if d < s.len() { d + 1 } else { s.len() as int };
    let e = dot_from(s, after);
    let int_part = s.subrange(0, d);
    let frac = trim_zeros(s.subrange(after, e));
    let width = if frac.len() > decimals { frac.len() as int } else { decimals as int };
    if (int_part.len() == 0 && frac.len() == 0) || e < s.len() || frac.len() > decimals
        || int_part.len() + width > MAX_FORMATTED_DIGITS {
        None
    } else {
        parse_u64_text(int_part + frac + zeros(decimals - frac.len()))
    }
}

/// Decimal digits of `n`, without leading zeros (`0` is one digit).
pub open spec fn digits_of(n: nat) -> Seq<u8>
    decreases n,
{
    if n < 10 {
        seq![(48 + n) as u8]
    } else {
        digits_of(n / 10).push((48 + n % 10) as u8)
    }
}

/// The UI text of a raw amount with `decimals` decimals: the digits with a
/// `.` before the last `decimals` of them (and leading zeros so that one
/// digit stands before it), without trailing zeros after the point, and
/// without the point if nothing follows it.
pub open spec fn ui_amount_text(amount: u64, decimals: u8) -> Seq<u8> {
    let d = digits_of(amount as nat);
    let p = if d.len() > decimals { d } else { zeros(decimals + 1 - d.len()) + d };
    let k = p.len() - decimals;
    let frac = trim_zeros(p.subrange(k, p.len() as int));
    if frac.len() == 0 {
        p.subrange(0, k)
    } else {
        p.subrange(0, k) + seq![46u8] + frac
    }
}

proof fn lemma_dot_from(s: Seq<u8>, i: int, d: int)
    requires
        0 <= i <= d <= s.len(),
        forall|k: int| i <= k < d ==> s[k] != 46,
        d == s.len() || s[d] == 46,
    ensures
        dot_from(s, i) == d,
    decreases d - i,
{
    if i < d {
        lemma_dot_from(s, i + 1, d);
    }
}

proof fn lemma_trim(s: Seq<u8>, f: int)
    requires
        0 <= f <= s.len(),
        forall|k: int| f <= k < s.len() ==> s[k] == 48,
        f == 0 || s[f - 1] != 48,
    ensures
        trim_zeros(s) == s.subrange(0, f),
    decreases s.len(),
{
    if s.len() > f {
        lemma_trim(s.drop_last(), f);
        assert(s.drop_last().subrange(0, f) =~= s.subrange(0, f));
    } else {
        assert(s.subrange(0, f) =~= s);
    }
}

proof fn lemma_value_grows(s: Seq<u8>, i: int)
    requires
        0 <= i <= s.len(),
        all_digits(s),
    ensures
        digits_value(s) >= digits_value(s.subrange(0, i)),
    decreases s.len(),
{
    if i < s.len() {
        assert(all_digits(s.drop_last()));
        lemma_value_grows(s.drop_last(), i);
        assert(s.drop_last().subrange(0, i) =~= s.subrange(0, i));
    } else {
        assert(s.subrange(0, i) =~= s);
    }
}

/// Reads a `u64` in decimal text, as `str::parse` does.
pub fn parse_u64(s: &[u8]) -> (r: Option<u64>)
    ensures
        r == parse_u64_text(s@),
{
    let len = s.len();
    let start: usize = if len > 0 && s[0] == 43 { 1 } else { 0 };
    let ghost t = if s@.len() > 0 && s@[0] == 43 { s@.drop_first() } else { s@ };
    assert(t =~= s@.subrange(start as int, len as int));
    if start == len {
        return None;
    }
    let mut acc: u64 = 0;
    let mut i: usize = start;
    while i < len
        invariant
            start <= i <= len,
            len == s@.len(),
            t == (if s@.len() > 0 && s@[0] == 43 { s@.drop_first() } else { s@ }),
            t == s@.subrange(start as int, len as int),
            start < len,
            all_digits(t.subrange(0, i - start)),
            acc == digits_value(t.subrange(0, i - start)),
        decreases len - i,
    {
        let c = s[i];
        if c < 48 || c > 57 {
            assert(!is_digit(t[i - start]));
            return None;
        }
        let digit = (c - 48) as u64;
        let ghost prefix = t.subrange(0, i + 1 - start);
        assert(prefix.drop_last() =~= t.subrange(0, i - start));
        if acc > 1844674407370955161 || (acc == 1844674407370955161 && digit > 5) {
            proof {
                assert(digits_value(prefix) > u64::MAX);
                if all_digits(t) {
                    lemma_value_grows(t, i + 1 - start);
                    assert(t.subrange(0, i + 1 - start) == prefix);
                }
            }
            return None;
        }
        acc = acc * 10 + digit;
        i += 1;
    }
    assert(t.subrange(0, len - start) =~= t);
    Some(acc)
}

/// Converts a UI amount into the raw amount for `decimals` decimals.
pub fn try_ui_amount_into_amount(ui_amount: &str, decimals: u8) -> (r: Result<u64, ProgramError>)
    ensures
        r == match ui_amount_value(ui_amount.spec_bytes(), decimals) {
            Some(v) => Ok::<u64, ProgramError>(v),
            None => Err(ProgramError::InvalidArgument),
        },
{
    let s = ui_amount.as_bytes();
    let len = s.len();
    let mut d: usize = 0;
    while d < len && s[d] != 46
        invariant
            0 <= d <= len,
            len == s@.len(),
            forall|k: int| 0 <= k < d ==> s@[k] != 46,
        decreases len - d,
    {
        d += 1;
    }
    proof {
        lemma_dot_from(s@, 0, d as int);
    }
    let after: usize = if d < len { d + 1 } else { len };
    let mut e: usize = after;
    while e < len && s[e] != 46
        invariant
            after <= e <= len,
            len == s@.len(),
            forall|k: int| after <= k < e ==> s@[k] != 46,
        decreases len - e,
    {
        e += 1;
    }
    proof {
        lemma_dot_from(s@, after as int, e as int);
    }
    let mut f: usize = e;
    while f > after && s[f - 1] == 48
        invariant
            after <= f <= e,
            e <= len,
            len == s@.len(),
            forall|k: int| f <= k < e ==> s@[k] == 48,
        decreases f - after,
    {
        f -= 1;
    }
    proof {
        let seg = s@.subrange(after as int, e as int);
        lemma_trim(seg, f - after);
        assert(seg.subrange(0, f - after) =~= s@.subrange(after as int, f as int));
    }
    let frac_len = f - after;
    let dec = decimals as usize;
    let width = if frac_len > dec { frac_len } else { dec };
    if (d == 0 && frac_len == 0) || e < len || frac_len > dec || width > MAX_FORMATTED_DIGITS
        || d > MAX_FORMATTED_DIGITS - width {
        return Err(ProgramError::InvalidArgument);
    }
    let mut digits: Vec<u8> = Vec::new();
    let mut k: usize = 0;
    while k < d
        invariant
            0 <= k <= d,
            d <= len,
            len == s@.len(),
            digits@ == s@.subrange(0, k as int),
        decreases d - k,
    {
        digits.push(s[k]);
        assert(digits@ =~= s@.subrange(0, k + 1));
        k += 1;
    }
    let mut k: usize = after;
    while k < f
        invariant
            after <= k <= f,
            f <= len,
            len == s@.len(),
            digits@ == s@.subrange(0, d as int) + s@.subrange(after as int, k as int),
        decreases f - k,
    {
        digits.push(s[k]);
        assert(digits@ =~= s@.subrange(0, d as int) + s@.subrange(after as int, k + 1));
        k += 1;
    }
    let mut z: usize = 0;
    while z < dec - frac_len
        invariant
            0 <= z <= dec - frac_len,
            frac_len <= dec,
            digits@ == s@.subrange(0, d as int) + s@.subrange(after as int, f as int) + zeros(z as int),
        decreases dec - frac_len - z,
    {
        digits.push(48);
        assert(digits@ =~= s@.subrange(0, d as int) + s@.subrange(after as int, f as int) + zeros(z + 1));
        z += 1;
    }
    match parse_u64(digits.as_slice()) {
        Some(v) => Ok(v),
        None => Err(ProgramError::InvalidArgument),
    }
}

/// The UI text of a raw amount with `decimals` decimals.
pub fn amount_to_ui_amount(amount: u64, decimals: u8) -> (r: Vec<u8>)
    ensures
        r@ == ui_amount_text(amount, decimals),
{
    let mut digits: Vec<u8> = Vec::new();
    digits.push((48 + amount % 10) as u8);
    let mut v: u64 = amount / 10;
    assert(digits_of(amount as nat) == (if v > 0 { digits_of(v as nat) + digits@ } else { digits@ })) by {
        if amount >= 10 {
            assert(digits_of(amount as nat) =~= digits_of(v as nat) + digits@);
        } else {
            assert(digits_of(amount as nat) =~= digits@);
        }
    }
    while v > 0
        invariant
            digits_of(amount as nat) == (if v > 0 { digits_of(v as nat) + digits@ } else { digits@ }),
        decreases v,
    {
        let ghost before = digits@;
        digits.insert(0, (48 + v % 10) as u8);
        assert(digits@ =~= seq![(48 + v % 10) as u8] + before);
        if v < 10 {
            assert(digits_of(amount as nat) =~= digits@);
        } else {
            assert(digits_of(amount as nat) =~= digits_of((v / 10) as nat) + digits@);
        }
        v = v / 10;
    }
    let dec = decimals as usize;
    let mut padded: Vec<u8> = Vec::new();
    if digits.len() <= dec {
        let mut z: usize = 0;
        while z < dec + 1 - digits.len()
            invariant
                dec <= 255,
                digits@.len() <= dec,
                0 <= z <= dec + 1 - digits@.len(),
                padded@ == zeros(z as int),
            decreases dec + 1 - digits@.len() - z,
        {
            padded.push(48);
            assert(padded@ =~= zeros(z + 1));
            z += 1;
        }
    }
    let ghost pad = padded@;
    let mut i: usize = 0;
    while i < digits.len()
        invariant
            0 <= i <= digits@.len(),
            padded@ == pad + digits@.subrange(0, i as int),
        decreases digits@.len() - i,
    {
        padded.push(digits[i]);
        assert(padded@ =~= pad + digits@.subrange(0, i + 1));
        i += 1;
    }
    assert(padded@ =~= (if digits@.len() > decimals { digits@ } else { zeros(decimals + 1 - digits@.len()) + digits@ }));
    let len = padded.len();
    let k = len - dec;
    let mut f: usize = len;
    while f > k && padded[f - 1] == 48
        invariant
            k <= f <= len,
            len == padded@.len(),
            forall|j: int| f <= j < len ==> padded@[j] == 48,
        decreases f - k,
    {
        f -= 1;
    }
    proof {
        let seg = padded@.subrange(k as int, len as int);
        lemma_trim(seg, f - k);
        assert(seg.subrange(0, f - k) =~= padded@.subrange(k as int, f as int));
    }
    let mut out: Vec<u8> = Vec::new();
    let mut j: usize = 0;
    while j < k
        invariant
            0 <= j <= k,
            k <= len,
            len == padded@.len(),
            out@ == padded@.subrange(0, j as int),
        decreases k - j,
    {
        out.push(padded[j]);
        assert(out@ =~= padded@.subrange(0, j + 1));
        j += 1;
    }
    if f > k {
        out.push(46);
        let mut j: usize = k;
        while j < f
            invariant
                k <= j <= f,
                f <= len,
                len == padded@.len(),
                out@ == padded@.subrange(0, k as int) + seq![46u8] + padded@.subrange(k as int, j as int),
            decreases f - j,
        {
            out.push(padded[j]);
            assert(out@ =~= padded@.subrange(0, k as int) + seq![46u8] + padded@.subrange(k as int, j + 1));
            j += 1;
        }
    }
    out
}

} // verus!
