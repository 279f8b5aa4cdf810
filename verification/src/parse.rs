//! Byte-level input parsing: trimming, separator search, decimal integers,
//! and the pair grammar `x,y` / `x;y` shared by the dimension and coordinate
//! readers.

use vstd::prelude::*;
use crate::board::Vec2;
use crate::error::GameError;

verus! {

/// ASCII whitespace, stripped from the edges of every input field.
pub open spec fn is_space(b: u8) -> bool {
    b == 32 || b == 9 || b == 10 || b == 13
}

/// The separators accepted between the two halves of a pair.
pub open spec fn is_sep(b: u8) -> bool {
    b == 44 || b == 59
}

/// An ASCII decimal digit.
pub open spec fn is_digit(b: u8) -> bool {
    48 <= b && b <= 57
}

/// The input with ASCII whitespace removed from both ends.
pub open spec fn spec_trim(s: Seq<u8>) -> Seq<u8>
    decreases s.len(),
{
    if s.len() == 0 {
        s
    } else if is_space(s[0]) {
        spec_trim(s.drop_first())
    } else if is_space(s.last()) {
        spec_trim(s.drop_last())
    } else {
        s
    }
}

/// The position of the first separator at or after `from`, if any.
pub open spec fn spec_find_sep(s: Seq<u8>, from: int) -> Option<int>
    decreases s.len() - from,
{
    if from < 0 || from >= s.len() {
        None
    } else if is_sep(s[from]) {
        Some(from)
    } else {
        spec_find_sep(s, from + 1)
    }
}

/// The value of a string of decimal digits, most significant first.
pub open spec fn digits_val(s: Seq<u8>) -> int
    recommends
        all_digits(s),
    decreases s.len(),
{
    if s.len() == 0 {
        0
    } else {
        digits_val(s.drop_last()) * 10 + (s.last() - 48)
    }
}

/// Whether every byte is a decimal digit.
pub open spec fn all_digits(s: Seq<u8>) -> bool {
    forall|i: int| 0 <= i < s.len() ==> is_digit(#[trigger] s[i])
}

/// The `i32` denoted by a trimmed field: an optional `+` or `-` sign
/// followed by one or more digits, rejected when the value does not fit.
pub open spec fn spec_parse_i32(s: Seq<u8>) -> Option<i32> {
    let neg = s.len() > 0 && s[0] == 45;
    let ds = if s.len() > 0 && (s[0] == 43 || s[0] == 45) {
        s.drop_first()
    } else {
        s
    };
    if ds.len() == 0 || !all_digits(ds) {
        None
    } else {
        let v = if neg {
            -digits_val(ds)
        } else {
            digits_val(ds)
        };
        if i32::MIN <= v <= i32::MAX {
            Some(v as i32)
        } else {
            None
        }
    }
}

/// The pair grammar: trim the line; an empty line is a distinct error; the
/// line must hold a separator; the fields before and after it (up to a
/// second separator, if any) are trimmed and read as `i32`s.
pub open spec fn spec_parse_pair(s: Seq<u8>) -> Result<Vec2, GameError> {
    let t = spec_trim(s);
    if t.len() == 0 {
        Err(GameError::EmptyInput)
    } else {
        match spec_find_sep(t, 0) {
            None => Err(GameError::UnparsableInput),
            Some(p1) => {
                let end2 = match spec_find_sep(t, p1 + 1) {
                    None => t.len() as int,
                    Some(p2) => p2,
                };
                let sx = spec_trim(t.subrange(0, p1));
                let sy = spec_trim(t.subrange(p1 + 1, end2));
                match (spec_parse_i32(sx), spec_parse_i32(sy)) {
                    (Some(x), Some(y)) => Ok(Vec2 { x, y }),
                    _ => Err(GameError::UnparsableInput),
                }
            },
        }
    }
}

/// Digit strings denote non-negative values.
pub proof fn lemma_digits_val_nonneg(s: Seq<u8>)
    requires
        all_digits(s),
    ensures
        digits_val(s) >= 0,
    decreases s.len(),
{
    if s.len() > 0 {
        assert(all_digits(s.drop_last()));
        lemma_digits_val_nonneg(s.drop_last());
    }
}

/// Extending a digit string never shrinks its value.
pub proof fn lemma_digits_val_mono(s: Seq<u8>, k: int)
    requires
        all_digits(s),
        0 <= k <= s.len(),
    ensures
        digits_val(s.subrange(0, k)) <= digits_val(s),
    decreases s.len() - k,
{
    if k < s.len() {
        let w = s.subrange(0, k + 1);
        assert(w.drop_last() =~= s.subrange(0, k));
        assert(all_digits(w));
        lemma_digits_val_nonneg(s.subrange(0, k));
        assert(digits_val(w) == digits_val(s.subrange(0, k)) * 10 + (w.last() - 48));
        assert(digits_val(s.subrange(0, k)) <= digits_val(w)) by {
            lemma_digits_val_nonneg(s.subrange(0, k));
        }
        lemma_digits_val_mono(s, k + 1);
        assert(s.subrange(0, s.len() as int) =~= s);
    } else {
        assert(s.subrange(0, k) =~= s);
    }
}

fn is_space_b(b: u8) -> (r: bool)
    ensures
        r == is_space(b),
{
    b == 32 || b == 9 || b == 10 || b == 13
}

fn is_sep_b(b: u8) -> (r: bool)
    ensures
        r == is_sep(b),
{
    b == 44 || b == 59
}

/// The bounds of `s[lo..hi]` with ASCII whitespace stripped from both ends.
#[verifier::loop_isolation(false)]
pub fn trim_bounds(s: &Vec<u8>, lo: usize, hi: usize) -> (r: (usize, usize))
    requires
        lo <= hi <= s@.len(),
    ensures
        lo <= r.0 <= r.1 <= hi,
        s@.subrange(r.0 as int, r.1 as int) == spec_trim(s@.subrange(lo as int, hi as int)),
{
    let mut a = lo;
    let mut b = hi;
    while a < b && is_space_b(s[a])
        invariant
            lo <= a <= b <= hi <= s@.len(),
            spec_trim(s@.subrange(lo as int, hi as int)) == spec_trim(
                s@.subrange(a as int, b as int),
            ),
        decreases b - a,
    {
        proof {
            assert(s@.subrange(a as int, b as int).drop_first() =~= s@.subrange(a + 1, b as int));
        }
        a = a + 1;
    }
    while a < b && is_space_b(s[b - 1])
        invariant
            lo <= a <= b <= hi <= s@.len(),
            a < b ==> !is_space(s@[a as int]),
            spec_trim(s@.subrange(lo as int, hi as int)) == spec_trim(
                s@.subrange(a as int, b as int),
            ),
        decreases b - a,
    {
        proof {
            assert(s@.subrange(a as int, b as int).drop_last() =~= s@.subrange(a as int, b - 1));
        }
        b = b - 1;
    }
    proof {
        assert(spec_trim(s@.subrange(a as int, b as int)) =~= s@.subrange(a as int, b as int));
    }
    (a, b)
}

/// A fresh copy of `s[lo..hi]`.
#[verifier::loop_isolation(false)]
pub fn copy_range(s: &Vec<u8>, lo: usize, hi: usize) -> (r: Vec<u8>)
    requires
        lo <= hi <= s@.len(),
    ensures
        r@ == s@.subrange(lo as int, hi as int),
{
    let mut r: Vec<u8> = Vec::new();
    let mut k = lo;
    while k < hi
        invariant
            lo <= k <= hi <= s@.len(),
            r@ == s@.subrange(lo as int, k as int),
        decreases hi - k,
    {
        r.push(s[k]);
        proof {
            assert(s@.subrange(lo as int, k as int).push(s@[k as int]) =~= s@.subrange(
                lo as int,
                k + 1,
            ));
        }
        k = k + 1;
    }
    r
}

/// The position of the first separator at or after `from`.
#[verifier::loop_isolation(false)]
pub fn find_sep(s: &Vec<u8>, from: usize) -> (r: Option<usize>)
    requires
        from <= s@.len(),
    ensures
        match r {
            Some(p) => from <= p < s@.len() && spec_find_sep(s@, from as int) == Some(p as int),
            None => spec_find_sep(s@, from as int) is None,
        },
{
    let mut k = from;
    while k < s.len()
        invariant
            from <= k <= s@.len(),
            spec_find_sep(s@, from as int) == spec_find_sep(s@, k as int),
        decreases s@.len() - k,
    {
        if is_sep_b(s[k]) {
            return Some(k);
        }
        k = k + 1;
    }
    None
}

/// Read a trimmed field as an `i32`, exactly as [`spec_parse_i32`] does.
#[verifier::loop_isolation(false)]
pub fn parse_i32_bytes(t: &Vec<u8>) -> (r: Option<i32>)
    ensures
        r == spec_parse_i32(t@),
{
    let n = t.len();
    let mut i: usize = 0;
    let mut neg = false;
    if n > 0 && (t[0] == 43 || t[0] == 45) {
        neg = t[0] == 45;
        i = 1;
    }
    let ghost ds = if i == 1 {
        t@.drop_first()
    } else {
        t@
    };
    proof {
        assert(ds =~= t@.subrange(i as int, n as int));
    }
    if i >= n {
        return None;
    }
    let mut acc: u64 = 0;
    let mut j = i;
    while j < n
        invariant
            i <= j <= n == t@.len(),
            ds == t@.subrange(i as int, n as int),
            all_digits(t@.subrange(i as int, j as int)),
            acc == digits_val(t@.subrange(i as int, j as int)),
            acc <= 2147483648,
        decreases n - j,
    {
        let b = t[j];
        if !(48 <= b && b <= 57) {
            proof {
                assert(ds[j - i] == t@[j as int]);
                assert(!is_digit(ds[j - i]));
                assert(!all_digits(ds));
                assert(spec_parse_i32(t@) is None);
            }
            return None;
        }
        let d: u64 = (b - 48) as u64;
        let acc10: u64 = acc * 10 + d;
        proof {
            assert(t@.subrange(i as int, j + 1).drop_last() =~= t@.subrange(i as int, j as int));
        }
        if acc10 > 2147483648 {
            proof {
                if all_digits(ds) {
                    assert(ds.subrange(0, j + 1 - i) =~= t@.subrange(i as int, j + 1));
                    assert(digits_val(t@.subrange(i as int, j + 1)) == acc * 10 + (t@[j as int]
                        - 48));
                    assert(digits_val(ds.subrange(0, j + 1 - i)) == acc10);
                    lemma_digits_val_mono(ds, j + 1 - i);
                    assert(digits_val(ds) > 2147483648);
                }
                assert(spec_parse_i32(t@) is None);
            }
            return None;
        }
        acc = acc10;
        j = j + 1;
    }
    proof {
        assert(t@.subrange(i as int, n as int) =~= ds);
        assert(all_digits(ds));
    }
    if neg {
        Some((-(acc as i64)) as i32)
    } else {
        if acc > 2147483647 {
            None
        } else {
            Some(acc as i32)
        }
    }
}

/// Read a line as a pair of `i32`s, exactly as [`spec_parse_pair`] does.
pub fn parse_pair_bytes(s: &Vec<u8>) -> (r: Result<Vec2, GameError>)
    ensures
        r == spec_parse_pair(s@),
{
    let n = s.len();
    let (a, b) = trim_bounds(s, 0, n);
    proof {
        assert(s@.subrange(0, n as int) =~= s@);
    }
    let t = copy_range(s, a, b);
    if t.len() == 0 {
        return Err(GameError::EmptyInput);
    }
    let p1 = match find_sep(&t, 0) {
        None => {
            return Err(GameError::UnparsableInput);
        },
        Some(p) => p,
    };
    let end2 = match find_sep(&t, p1 + 1) {
        None => t.len(),
        Some(p2) => p2,
    };
    let (ax, bx) = trim_bounds(&t, 0, p1);
    let x_part = copy_range(&t, ax, bx);
    let (ay, by) = trim_bounds(&t, p1 + 1, end2);
    let y_part = copy_range(&t, ay, by);
    let x = match parse_i32_bytes(&x_part) {
        None => {
            return Err(GameError::UnparsableInput);
        },
        Some(v) => v,
    };
    let y = match parse_i32_bytes(&y_part) {
        None => {
            return Err(GameError::UnparsableInput);
        },
        Some(v) => v,
    };
    Ok(Vec2 { x, y })
}

/// The yes/no grammar: after trimming and ASCII case folding, `y` is yes,
/// `n` is no, an empty line defaults to no, and anything else is rejected.
pub open spec fn spec_parse_yn(s: Seq<u8>) -> Result<bool, GameError> {
    let t = spec_trim(s);
    if t.len() == 0 {
        Ok(false)
    } else if t.len() == 1 && (t[0] == 121 || t[0] == 89) {
        Ok(true)
    } else if t.len() == 1 && (t[0] == 110 || t[0] == 78) {
        Ok(false)
    } else {
        Err(GameError::UnparsableInput)
    }
}

/// Read a line as a yes/no answer, exactly as [`spec_parse_yn`] does.
pub fn parse_yn_bytes(s: &Vec<u8>) -> (r: Result<bool, GameError>)
    ensures
        r == spec_parse_yn(s@),
{
    let n = s.len();
    let (a, b) = trim_bounds(s, 0, n);
    proof {
        assert(s@.subrange(0, n as int) =~= s@);
    }
    if a == b {
        Ok(false)
    } else if b - a == 1 && (s[a] == 121 || s[a] == 89) {
        Ok(true)
    } else if b - a == 1 && (s[a] == 110 || s[a] == 78) {
        Ok(false)
    } else {
        Err(GameError::UnparsableInput)
    }
}

} // verus!
