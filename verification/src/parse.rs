use vstd::prelude::*;
use vstd::string::StrSliceExecFns;

verus! {

// ---------------------------------------------------------------------------
// Digits
// ---------------------------------------------------------------------------
pub open spec fn is_digit(c: char) -> bool {
    '0' as u32 <= c as u32 && c as u32 <= '9' as u32
}

pub open spec fn digit_val(c: char) -> int {
    c as u32 - '0' as u32
}

pub open spec fn all_digits(s: Seq<char>) -> bool {
    forall|i: int| 0 <= i < s.len() ==> is_digit(#[trigger] s[i])
}

/// The base-10 value of a digit string, most significant digit first.
pub open spec fn digits_value(s: Seq<char>) -> int
    decreases s.len(),
{
    if s.len() == 0 {
        0
    } else {
        digits_value(s.drop_last()) * 10 + digit_val(s.last())
    }
}

/// A sign, if present, heads the literal; the rest is its body.
pub open spec fn strip_sign(s: Seq<char>) -> Seq<char> {
    if s.len() > 0 && (s[0] == '+' || s[0] == '-') {
        s.skip(1)
    } else {
        s
    }
}

pub open spec fn is_negative(s: Seq<char>) -> bool {
    s.len() > 0 && s[0] == '-'
}

proof fn lemma_digits_value_nonneg(s: Seq<char>)
    requires
        all_digits(s),
    ensures
        digits_value(s) >= 0,
    decreases s.len(),
{
    if s.len() > 0 {
        assert(all_digits(s.drop_last()));
        lemma_digits_value_nonneg(s.drop_last());
    }
}

/// With every digit appended, the value of a digit string never shrinks.
proof fn lemma_digits_value_prefix(s: Seq<char>, k: int)
    requires
        all_digits(s),
        0 <= k <= s.len(),
    ensures
        digits_value(s.take(k)) <= digits_value(s),
    decreases s.len() - k,
{
    if k < s.len() {
        lemma_digits_value_prefix(s, k + 1);
        let t = s.take(k + 1);
        assert(t.drop_last() =~= s.take(k));
        assert(all_digits(s.take(k))) by {
            assert(forall|i: int| 0 <= i < k ==> s.take(k)[i] == s[i]);
        }
        lemma_digits_value_nonneg(s.take(k));
        assert(digits_value(t) == digits_value(s.take(k)) * 10 + digit_val(s[k]));
    } else {
        assert(s.take(k) =~= s);
    }
}

// ---------------------------------------------------------------------------
// Integer literals
// ---------------------------------------------------------------------------
/// A base-10 signed integer literal: an optional sign, then one or more digits.
pub open spec fn int_digits_ok(s: Seq<char>) -> bool {
    strip_sign(s).len() > 0 && all_digits(strip_sign(s))
}

pub open spec fn int_literal_value(s: Seq<char>) -> int {
    if is_negative(s) {
        -digits_value(strip_sign(s))
    } else {
        digits_value(strip_sign(s))
    }
}

/// A literal that a 64-bit signed parse accepts: well-formed and in range.
pub open spec fn int_literal_ok(s: Seq<char>) -> bool {
    int_digits_ok(s) && i64::MIN <= int_literal_value(s) <= i64::MAX
}

/// The characters of a text, in order.
pub fn chars_of(s: &str) -> (v: Vec<char>)
    ensures
        v@ == s@,
{
    let n = s.unicode_len();
    let mut v: Vec<char> = Vec::new();
    let mut i: usize = 0;
    while i < n
        invariant
            i <= n,
            n == s@.len(),
            v@ == s@.take(i as int),
        decreases n - i,
    {
        let c = s.get_char(i);
        v.push(c);
        i = i + 1;
        proof {
            assert(s@.take(i as int) =~= s@.take(i - 1).push(s@[i - 1]));
        }
    }
    proof {
        assert(s@.take(n as int) =~= s@);
    }
    v
}

/// Parses a base-10 signed 64-bit integer literal; `None` exactly on a text
/// that is not one, or whose value does not fit.
pub fn parse_int_literal(s: &str) -> (r: Option<i64>)
    ensures
        r matches Some(n) ==> int_literal_ok(s@) && n as int == int_literal_value(s@),
        r is None ==> !int_literal_ok(s@),
{
    let cs = chars_of(s);
    let n = cs.len();
    let mut start: usize = 0;
    let mut neg = false;
    if n > 0 && (cs[0] == '+' || cs[0] == '-') {
        neg = cs[0] == '-';
        start = 1;
    }
    let ghost digits = strip_sign(s@);
    proof {
        assert(digits =~= s@.skip(start as int));
    }
    if start == n {
        return None;
    }
    let limit: u64 = if neg {
        9223372036854775808
    } else {
        9223372036854775807
    };
    let mut acc: u64 = 0;
    let mut j: usize = start;
    while j < n
        invariant
            start <= j <= n,
            n == cs.len(),
            cs@ == s@,
            digits == strip_sign(s@),
            digits == s@.skip(start as int),
            start < n,
            neg == is_negative(s@),
            limit == if neg {
                9223372036854775808u64
            } else {
                9223372036854775807u64
            },
            all_digits(digits.take(j - start)),
            acc as int == digits_value(digits.take(j - start)),
            acc <= limit,
        decreases n - j,
    {
        let c = cs[j];
        let cv = c as u32;
        if cv < 48 || cv > 57 {
            proof {
                assert(digits[j - start] == s@[j as int]);
                assert(!is_digit(digits[j - start]));
            }
            return None;
        }
        let d = (cv - 48) as u64;
        let ghost pfx = digits.take(j - start);
        let ghost pfx1 = digits.take(j + 1 - start);
        proof {
            assert(digits[j - start] == s@[j as int]);
            assert(is_digit(digits[j - start]));
            assert(pfx1.drop_last() =~= pfx);
            assert(pfx1.last() == digits[j - start]);
            assert(digits_value(pfx1) == digits_value(pfx) * 10 + digit_val(digits[j - start]));
            assert(all_digits(pfx1));
        }
        if acc > limit / 10 || (acc == limit / 10 && d > limit % 10) {
            proof {
                // The value already exceeds what a 64-bit integer holds, and
                // further digits only grow it.
                assert(digits_value(pfx1) > limit as int);
                if all_digits(digits) {
                    lemma_digits_value_prefix(digits, j + 1 - start);
                    assert(digits_value(digits) > limit as int);
                }
            }
            return None;
        }
        acc = acc * 10 + d;
        j = j + 1;
    }
    proof {
        assert(digits.take(n - start as int) =~= digits);
    }
    if neg {
        if acc == 9223372036854775808 {
            Some(i64::MIN)
        } else {
            Some(-(acc as i64))
        }
    } else {
        Some(acc as i64)
    }
}

// ---------------------------------------------------------------------------
// Boolean literals
// ---------------------------------------------------------------------------
/// A boolean literal: exactly `true` or `false`.
pub open spec fn bool_literal_ok(s: Seq<char>) -> bool {
    s == "true"@ || s == "false"@
}

pub open spec fn bool_literal_value(s: Seq<char>) -> bool {
    s == "true"@
}

/// Parses a boolean literal; `None` exactly on any other text.
pub fn parse_bool_literal(s: &str) -> (r: Option<bool>)
    ensures
        r matches Some(b) ==> bool_literal_ok(s@) && b == bool_literal_value(s@),
        r is None ==> !bool_literal_ok(s@),
{
    let sv = s.to_owned();
    if sv == "true".to_owned() {
        Some(true)
    } else if sv == "false".to_owned() {
        Some(false)
    } else {
        None
    }
}

} // verus!
