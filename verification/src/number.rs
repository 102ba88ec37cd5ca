//! Decimal integers: reading them from text and writing them as text.
use vstd::prelude::*;

verus! {

/// An ASCII decimal digit.
pub open spec fn is_digit(b: u8) -> bool {
    48 <= b <= 57
}

/// Every byte of `d` is an ASCII decimal digit.
pub open spec fn all_digits(d: Seq<u8>) -> bool {
    forall|i: int| 0 <= i < d.len() ==> is_digit(#[trigger] d[i])
}

/// The number that the decimal digits `d` spell (most significant first).
pub open spec fn digits_value(d: Seq<u8>) -> nat
    decreases d.len(),
{
    if d.len() == 0 {
        0
    } else {
        digits_value(d.drop_last()) * 10 + (d.last() - 48) as nat
    }
}

/// The integer that `text` spells in the form that `str::parse` reads for
/// integer types: an optional `+` or `-`, then one or more ASCII digits.
/// `None` when `text` has another form. Range limits are not applied here.
pub open spec fn int_text_value(text: Seq<u8>) -> Option<int> {
    if text.len() > 0 && (text[0] == 43u8 || text[0] == 45u8) {
        let d = text.skip(1);
        if d.len() > 0 && all_digits(d) {
            if text[0] == 45u8 {
                Some(-(digits_value(d) as int))
            } else {
                Some(digits_value(d) as int)
            }
        } else {
            None
        }
    } else if text.len() > 0 && all_digits(text) {
        Some(digits_value(text) as int)
    } else {
        None
    }
}

/// What `text.parse::<i64>()` gives: the value when it has the integer form
/// and lies in the range of `i64`.
pub open spec fn parsed_i64(text: Seq<u8>) -> Option<i64> {
    match int_text_value(text) {
        Some(v) => if i64::MIN <= v <= i64::MAX { Some(v as i64) } else { None },
        None => None,
    }
}

/// What `text.parse::<i32>()` gives.
pub open spec fn parsed_i32(text: Seq<u8>) -> Option<i32> {
    match int_text_value(text) {
        Some(v) => if i32::MIN <= v <= i32::MAX { Some(v as i32) } else { None },
        None => None,
    }
}

proof fn lemma_digits_value_push(d: Seq<u8>, c: u8)
    ensures
        digits_value(d.push(c)) == digits_value(d) * 10 + (c - 48) as nat,
{
    assert(d.push(c).drop_last() =~= d);
}

/// Reading more digits never makes the number smaller.
proof fn lemma_digits_value_prefix(d: Seq<u8>, k: int)
    requires
        0 <= k <= d.len(),
        all_digits(d),
    ensures
        digits_value(d.take(k)) <= digits_value(d),
    decreases d.len() - k,
{
    if k < d.len() {
        lemma_digits_value_prefix(d, k + 1);
        assert(d.take(k + 1).drop_last() =~= d.take(k));
        assert(is_digit(d[k]));
    } else {
        assert(d.take(k) =~= d);
    }
}

/// Parses `text` as `str::parse::<i64>` does.
pub fn parse_i64(text: &[u8]) -> (res: Option<i64>)
    ensures
        res == parsed_i64(text@),
{
    let n = text.len();
    if n == 0 {
        return None;
    }
    let neg = text[0] == 45u8;
    let start: usize = if text[0] == 43u8 || text[0] == 45u8 { 1 } else { 0 };
    if start == n {
        return None;
    }
    let ghost d = text@.skip(start as int);
    let mut acc: i64 = 0;
    let mut i: usize = start;
    while i < n
        invariant
            start <= i <= n,
            n == text@.len(),
            1 <= n,
            start < n,
            start <= 1,
            d == text@.skip(start as int),
            start == 1 <==> (text@[0] == 43u8 || text@[0] == 45u8),
            neg == (text@[0] == 45u8),
            all_digits(d.take(i - start)),
            neg ==> acc == -(digits_value(d.take(i - start)) as int),
            !neg ==> acc == digits_value(d.take(i - start)) as int,
        decreases n - i,
    {
        let c = text[i];
        let k: usize = i - start;
        assert(d[k as int] == c);
        assert(d.take(k + 1) =~= d.take(k as int).push(c));
        if !(48u8 <= c && c <= 57u8) {
            proof {
                assert(!all_digits(d)) by {
                    assert(!is_digit(d[k as int]));
                }
                if start == 0 {
                    assert(d =~= text@);
                }
            }
            return None;
        }
        proof {
            lemma_digits_value_push(d.take(k as int), c);
        }
        let dv: i64 = (c - 48u8) as i64;
        let step = acc.checked_mul(10);
        let next = match step {
            Some(m) => if neg { m.checked_sub(dv) } else { m.checked_add(dv) },
            None => None,
        };
        match next {
            Some(v) => {
                acc = v;
                i = i + 1;
            },
            None => {
                proof {
                    let big = digits_value(d.take(k + 1));
                    assert(big > i64::MAX || -big < i64::MIN) by (nonlinear_arith)
                        requires
                            neg ==> (acc == -(digits_value(d.take(k as int)) as int)),
                            !neg ==> (acc == digits_value(d.take(k as int)) as int),
                            big == digits_value(d.take(k as int)) * 10 + (c - 48) as nat,
                            step is None || (step matches Some(m) && m == acc * 10),
                            step is None ==> (acc * 10 > i64::MAX || acc * 10 < i64::MIN),
                            step matches Some(m) ==> (neg ==> m - dv < i64::MIN),
                            step matches Some(m) ==> (!neg ==> m + dv > i64::MAX),
                            dv == (c - 48) as int,
                            48 <= c <= 57,
                    ;
                    if start == 0 {
                        assert(d =~= text@);
                    }
                    if all_digits(d) {
                        lemma_digits_value_prefix(d, k + 1);
                        assert(digits_value(d) >= big);
                        assert(d.len() > 0);
                        if neg {
                            assert(int_text_value(text@) == Some(-(digits_value(d) as int)));
                        } else {
                            assert(int_text_value(text@) == Some(digits_value(d) as int));
                        }
                    }
                }
                return None;
            },
        }
    }
    proof {
        assert(d.take(n - start) =~= d);
        if start == 0 {
            assert(d =~= text@);
        }
    }
    Some(acc)
}

/// Parses `text` as `str::parse::<i32>` does.
pub fn parse_i32(text: &[u8]) -> (res: Option<i32>)
    ensures
        res == parsed_i32(text@),
{
    match parse_i64(text) {
        Some(v) => if i32::MIN as i64 <= v && v <= i32::MAX as i64 { Some(v as i32) } else { None },
        None => None,
    }
}

} // verus!
