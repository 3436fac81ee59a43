use crate::parse::all_digits;
use crate::parse::chars_of;
use crate::parse::is_digit;
use crate::parse::strip_sign;
use vstd::prelude::*;

verus! {

// ---------------------------------------------------------------------------
// Float literals
//
// A float field keeps its literal text; the engine only decides whether the
// text is one a 64-bit float parse accepts: an optional sign, then either a
// special word (`inf`, `infinity`, `nan`, in any letter case) or a number of
// the shape `digits [. digits] [(e|E) [sign] digits]` with at least one
// mantissa digit.
// ---------------------------------------------------------------------------
pub open spec fn lower_char(c: char) -> char {
    if 'A' as u32 <= c as u32 && c as u32 <= 'Z' as u32 {
        ((c as u32 + 32) as u8) as char
    } else {
        c
    }
}

pub open spec fn lower_all(s: Seq<char>) -> Seq<char> {
    s.map_values(|c: char| lower_char(c))
}

pub open spec fn is_special_float(s: Seq<char>) -> bool {
    ||| lower_all(s) == seq!['i', 'n', 'f']
    ||| lower_all(s) == seq!['i', 'n', 'f', 'i', 'n', 'i', 't', 'y']
    ||| lower_all(s) == seq!['n', 'a', 'n']
}

pub open spec fn is_exp_char(c: char) -> bool {
    c == 'e' || c == 'E'
}

/// Digits with at most one point among them, and at least one digit.
pub open spec fn mantissa_ok(s: Seq<char>) -> bool {
    &&& forall|i: int| 0 <= i < s.len() ==> is_digit(#[trigger] s[i]) || s[i] == '.'
    &&& exists|i: int| 0 <= i < s.len() && is_digit(#[trigger] s[i])
    &&& forall|i: int, j: int|
        #![trigger s[i], s[j]]
        0 <= i < j < s.len() && s[i] == '.' ==> s[j] != '.'
}

/// An exponent: an optional sign, then one or more digits.
pub open spec fn exp_ok(s: Seq<char>) -> bool {
    strip_sign(s).len() > 0 && all_digits(strip_sign(s))
}

/// A number: a mantissa, optionally followed by an exponent marker and an
/// exponent. The marker, if any, is the first such character.
pub open spec fn number_ok(s: Seq<char>) -> bool {
    ||| (forall|i: int| 0 <= i < s.len() ==> !is_exp_char(#[trigger] s[i])) && mantissa_ok(s)
    ||| exists|i: int|
        #![trigger s.take(i)]
        0 <= i < s.len() && is_exp_char(s[i]) && (forall|j: int|
            0 <= j < i ==> !is_exp_char(s[j])) && mantissa_ok(s.take(i)) && exp_ok(s.skip(i + 1))
}

/// A literal that a 64-bit float parse accepts.
pub open spec fn float_literal_ok(s: Seq<char>) -> bool {
    is_special_float(strip_sign(s)) || number_ok(strip_sign(s))
}

fn lower_char_exec(c: char) -> (r: char)
    ensures
        r == lower_char(c),
{
    let cv = c as u32;
    if 65 <= cv && cv <= 90 {
        ((cv + 32) as u8) as char
    } else {
        c
    }
}

/// Whether the characters from `start` on spell a special float word.
fn is_special_word(cs: &Vec<char>, start: usize) -> (r: bool)
    requires
        start <= cs@.len(),
    ensures
        r == is_special_float(cs@.skip(start as int)),
{
    let ghost body = cs@.skip(start as int);
    let n = cs.len();
    let len = n - start;
    proof {
        assert(lower_all(body).len() == body.len());
    }
    if len != 3 && len != 8 {
        return false;
    }
    let mut low: Vec<char> = Vec::new();
    let mut i: usize = start;
    while i < n
        invariant
            start <= i <= n,
            n == cs@.len(),
            body == cs@.skip(start as int),
            low@ == lower_all(body).take(i - start),
        decreases n - i,
    {
        let c = lower_char_exec(cs[i]);
        low.push(c);
        proof {
            assert(body[i - start] == cs@[i as int]);
            assert(lower_all(body)[i - start] == lower_char(cs@[i as int]));
            assert(lower_all(body).take(i + 1 - start) =~= lower_all(body).take(i - start).push(
                lower_char(cs@[i as int]),
            ));
        }
        i = i + 1;
    }
    proof {
        assert(lower_all(body).take(n - start as int) =~= lower_all(body));
    }
    if len == 3 {
        let inf = low[0] == 'i' && low[1] == 'n' && low[2] == 'f';
        let nan = low[0] == 'n' && low[1] == 'a' && low[2] == 'n';
        proof {
            if inf {
                assert(lower_all(body) =~= seq!['i', 'n', 'f']);
            }
            if nan {
                assert(lower_all(body) =~= seq!['n', 'a', 'n']);
            }
        }
        inf || nan
    } else {
        let infinity = low[0] == 'i' && low[1] == 'n' && low[2] == 'f' && low[3] == 'i' && low[4]
            == 'n' && low[5] == 'i' && low[6] == 't' && low[7] == 'y';
        proof {
            if infinity {
                assert(lower_all(body) =~= seq!['i', 'n', 'f', 'i', 'n', 'i', 't', 'y']);
            }
        }
        infinity
    }
}

/// Whether the characters of `[lo, hi)` form a mantissa.
fn check_mantissa(cs: &Vec<char>, lo: usize, hi: usize) -> (r: bool)
    requires
        lo <= hi <= cs@.len(),
    ensures
        r == mantissa_ok(cs@.subrange(lo as int, hi as int)),
{
    let ghost m = cs@.subrange(lo as int, hi as int);
    let mut seen_digit = false;
    let mut seen_dot = false;
    let ghost mut dot_at: int = 0;
    let mut i: usize = lo;
    while i < hi
        invariant
            lo <= i <= hi <= cs@.len(),
            m == cs@.subrange(lo as int, hi as int),
            forall|k: int| lo <= k < i ==> is_digit(#[trigger] cs@[k]) || cs@[k] == '.',
            seen_digit <==> exists|k: int| lo <= k < i && is_digit(#[trigger] cs@[k]),
            seen_dot <==> exists|k: int| lo <= k < i && #[trigger] cs@[k] == '.',
            seen_dot ==> lo <= dot_at < i && cs@[dot_at] == '.',
            forall|k1: int, k2: int|
                #![trigger cs@[k1], cs@[k2]]
                lo <= k1 < k2 < i && cs@[k1] == '.' ==> cs@[k2] != '.',
        decreases hi - i,
    {
        let c = cs[i];
        let cv = c as u32;
        if 48 <= cv && cv <= 57 {
            seen_digit = true;
        } else if c == '.' {
            if seen_dot {
                proof {
                    assert(m[dot_at - lo] == '.');
                    assert(m[i - lo] == '.');
                }
                return false;
            }
            seen_dot = true;
            proof {
                dot_at = i as int;
            }
        } else {
            proof {
                assert(m[i - lo] == cs@[i as int]);
            }
            return false;
        }
        i = i + 1;
    }
    proof {
        if seen_digit {
            let k = choose|k: int| lo <= k < hi && is_digit(#[trigger] cs@[k]);
            assert(m[k - lo] == cs@[k]);
            assert(forall|q: int| 0 <= q < m.len() ==> m[q] == cs@[q + lo]);
            assert(forall|q1: int, q2: int|
                #![trigger m[q1], m[q2]]
                0 <= q1 < q2 < m.len() && m[q1] == '.' ==> m[q2] != '.') by {
                assert(forall|q1: int, q2: int|
                    #![trigger m[q1], m[q2]]
                    0 <= q1 < q2 < m.len() && m[q1] == '.' && m[q2] == '.'
                        ==> cs@[q1 + lo] == '.' && cs@[q2 + lo] == '.');
            }
        } else {
            if mantissa_ok(m) {
                let q = choose|q: int| 0 <= q < m.len() && is_digit(#[trigger] m[q]);
                assert(cs@[q + lo] == m[q]);
            }
        }
    }
    seen_digit
}

/// Whether the characters from `lo` on form an exponent.
fn check_exp(cs: &Vec<char>, lo: usize) -> (r: bool)
    requires
        lo <= cs@.len(),
    ensures
        r == exp_ok(cs@.skip(lo as int)),
{
    let ghost t = cs@.skip(lo as int);
    let n = cs.len();
    let mut start = lo;
    if start < n && (cs[start] == '+' || cs[start] == '-') {
        start = start + 1;
    }
    let ghost d = strip_sign(t);
    proof {
        assert(d =~= cs@.skip(start as int));
    }
    if start == n {
        return false;
    }
    let mut i: usize = start;
    while i < n
        invariant
            start <= i <= n,
            n == cs@.len(),
            t == cs@.skip(lo as int),
            d == strip_sign(t),
            d == cs@.skip(start as int),
            forall|k: int| start <= k < i ==> is_digit(#[trigger] cs@[k]),
        decreases n - i,
    {
        let cv = cs[i] as u32;
        if cv < 48 || cv > 57 {
            proof {
                assert(d[i - start] == cs@[i as int]);
            }
            return false;
        }
        i = i + 1;
    }
    proof {
        assert(forall|q: int| 0 <= q < d.len() ==> d[q] == cs@[q + start]);
    }
    true
}

/// Decides whether a text is a float literal.
pub fn check_float_literal(s: &str) -> (r: bool)
    ensures
        r == float_literal_ok(s@),
{
    let cs = chars_of(s);
    let n = cs.len();
    let mut start: usize = 0;
    if n > 0 && (cs[0] == '+' || cs[0] == '-') {
        start = 1;
    }
    let ghost body = strip_sign(s@);
    proof {
        assert(body =~= cs@.skip(start as int));
    }
    if is_special_word(&cs, start) {
        return true;
    }
    let mut e: usize = start;
    while e < n && !(cs[e] == 'e' || cs[e] == 'E')
        invariant
            start <= e <= n,
            n == cs@.len(),
            forall|j: int| start <= j < e ==> !is_exp_char(#[trigger] cs@[j]),
        decreases n - e,
    {
        e = e + 1;
    }
    let m_ok = check_mantissa(&cs, start, e);
    if e == n {
        proof {
            assert(forall|i: int| 0 <= i < body.len() ==> body[i] == cs@[i + start]);
            assert(body =~= cs@.subrange(start as int, n as int));
            if number_ok(body) && !mantissa_ok(body) {
                let i = choose|i: int|
                    #![trigger body.take(i)]
                    0 <= i < body.len() && is_exp_char(body[i]) && (forall|j: int|
                        0 <= j < i ==> !is_exp_char(body[j])) && mantissa_ok(body.take(i)) && exp_ok(
                        body.skip(i + 1),
                    );
                assert(cs@[i + start] == body[i]);
            }
        }
        return m_ok;
    }
    let x_ok = check_exp(&cs, e + 1);
    proof {
        assert(forall|i: int| 0 <= i < body.len() ==> body[i] == cs@[i + start]);
        assert(is_exp_char(cs@[e as int]));
        let w: int = e - start as int;
        assert(body[w] == cs@[e as int]);
        assert(body.take(w) =~= cs@.subrange(start as int, e as int));
        assert(body.skip(w + 1) =~= cs@.skip(e + 1));
        if m_ok && x_ok {
            assert(number_ok(body));
        }
        if number_ok(body) {
            // The marker the checker found is the first exponent character, so
            // any witness the definition offers is the same split.
            if forall|i: int| 0 <= i < body.len() ==> !is_exp_char(#[trigger] body[i]) {
                assert(!is_exp_char(body[w]));
                assert(false);
            } else {
                let i = choose|i: int|
                    #![trigger body.take(i)]
                    0 <= i < body.len() && is_exp_char(body[i]) && (forall|j: int|
                        0 <= j < i ==> !is_exp_char(body[j])) && mantissa_ok(body.take(i)) && exp_ok(
                        body.skip(i + 1),
                    );
                if i < w {
                    assert(!is_exp_char(cs@[i + start]));
                    assert(false);
                }
                if i > w {
                    assert(!is_exp_char(body[w]));
                    assert(false);
                }
                assert(i == w);
                assert(m_ok && x_ok);
            }
        }
    }
    m_ok && x_ok
}

} // verus!
