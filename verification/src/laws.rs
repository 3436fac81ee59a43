use crate::endpoint::Endpoint;
use crate::error::ErrVal;
use crate::pipeline::batch_result;
use crate::pipeline::row_result;
use crate::pipeline::rows_result;
use crate::schema::apply_keys;
use crate::schema::apply_one;
use crate::schema::apply_steps;
use crate::schema::coerce_ok;
use crate::schema::coerce_val;
use crate::schema::Op;
use crate::schema::StepVal;
use crate::value::json_array_parse;
use crate::value::Val;
use vstd::prelude::*;

verus! {

/// A first result carried into a second operator pass.
pub open spec fn then_keys(
    r: Result<Map<Seq<char>, Val>, ErrVal>,
    op: Op,
    keys: Seq<Seq<char>>,
) -> Result<Map<Seq<char>, Val>, ErrVal> {
    match r {
        Ok(m) => apply_keys(m, op, keys),
        Err(e) => Err(e),
    }
}

proof fn lemma_contains_head_or_tail(s: Seq<Seq<char>>, x: Seq<char>)
    requires
        s.len() > 0,
    ensures
        s.contains(x) <==> (s[0] == x || s.skip(1).contains(x)),
{
    if s.contains(x) {
        let i = choose|i: int| 0 <= i < s.len() && s[i] == x;
        if i > 0 {
            assert(s.skip(1)[i - 1] == x);
        }
    }
    if s.skip(1).contains(x) {
        let i = choose|i: int| 0 <= i < s.skip(1).len() && s.skip(1)[i] == x;
        assert(s[i + 1] == x);
    }
}

/// Dropping a list of fields never fails, removes exactly the listed fields,
/// and leaves every other field's value as it stood.
pub proof fn lemma_drop_removes_exactly(m: Map<Seq<char>, Val>, keys: Seq<Seq<char>>)
    ensures
        apply_keys(m, Op::Drop, keys) matches Ok(m2) && (forall|k: Seq<char>|
            #[trigger] m2.contains_key(k) <==> m.contains_key(k) && !keys.contains(k)) && (forall|
            k: Seq<char>,
        | #[trigger] m2.contains_key(k) ==> m2[k] == m[k]),
    decreases keys.len(),
{
    if keys.len() > 0 {
        let k0 = keys[0];
        let n = m.remove(k0);
        assert(apply_one(m, Op::Drop, k0) matches Ok(p) && p == n);
        lemma_drop_removes_exactly(n, keys.skip(1));
        assert forall|k: Seq<char>| true implies (#[trigger] keys.contains(k) <==> (k0 == k
            || keys.skip(1).contains(k))) by {
            lemma_contains_head_or_tail(keys, k);
        }
    } else {
        assert(forall|k: Seq<char>| !keys.contains(k));
    }
}

/// Dropping is idempotent: a second pass over the same fields changes nothing.
pub proof fn lemma_drop_idempotent(m: Map<Seq<char>, Val>, keys: Seq<Seq<char>>)
    ensures
        apply_keys(m, Op::Drop, keys) matches Ok(m1) && apply_keys(m1, Op::Drop, keys) matches Ok(
            m2,
        ) && m2 == m1,
{
    lemma_drop_removes_exactly(m, keys);
    let m1 = apply_keys(m, Op::Drop, keys)->Ok_0;
    lemma_drop_removes_exactly(m1, keys);
    let m2 = apply_keys(m1, Op::Drop, keys)->Ok_0;
    assert(m2 =~= m1);
}

/// Dropping an absent field never fails and leaves the event unchanged.
pub proof fn lemma_drop_absent(m: Map<Seq<char>, Val>, k: Seq<char>)
    requires
        !m.contains_key(k),
    ensures
        apply_one(m, Op::Drop, k) matches Ok(m2) && m2 == m,
{
    assert(m.remove(k) =~= m);
}

/// A pass over keys not naming `k` neither reads nor changes the field `k`.
proof fn lemma_apply_keys_frame(m: Map<Seq<char>, Val>, op: Op, keys: Seq<Seq<char>>, k: Seq<char>)
    requires
        !keys.contains(k),
    ensures
        apply_keys(m, op, keys) matches Ok(m2) ==> m2.contains_key(k) == m.contains_key(k) && (
        m.contains_key(k) ==> m2[k] == m[k]),
    decreases keys.len(),
{
    if keys.len() > 0 && apply_keys(m, op, keys) is Ok {
        let k0 = keys[0];
        assert(k0 != k);
        lemma_contains_head_or_tail(keys, k);
        let n = apply_one(m, op, k0)->Ok_0;
        assert(n.contains_key(k) == m.contains_key(k) && (m.contains_key(k) ==> n[k] == m[k]));
        lemma_apply_keys_frame(n, op, keys.skip(1), k);
    }
}

/// A field set before a pass that does not name it is still set, unchanged,
/// after the pass, and changes nothing else about the pass's outcome.
proof fn lemma_apply_keys_insert(
    m: Map<Seq<char>, Val>,
    op: Op,
    keys: Seq<Seq<char>>,
    k: Seq<char>,
    v: Val,
)
    requires
        !keys.contains(k),
    ensures
        match apply_keys(m, op, keys) {
            Ok(m2) => apply_keys(m.insert(k, v), op, keys) matches Ok(m3) && m3 == m2.insert(k, v),
            Err(e) => apply_keys(m.insert(k, v), op, keys) matches Err(e2) && e2 == e,
        },
    decreases keys.len(),
{
    let mi = m.insert(k, v);
    if keys.len() == 0 {
    } else {
        let k0 = keys[0];
        assert(k0 != k);
        lemma_contains_head_or_tail(keys, k);
        if op == Op::Drop {
            assert(mi.remove(k0) =~= m.remove(k0).insert(k, v));
            lemma_apply_keys_insert(m.remove(k0), op, keys.skip(1), k, v);
        } else if !m.contains_key(k0) {
            lemma_apply_keys_insert(m, op, keys.skip(1), k, v);
        } else {
            assert(mi[k0] == m[k0]);
            match m[k0] {
                Val::Str(s) => {
                    if coerce_ok(op, s) {
                        assert(mi.insert(k0, coerce_val(op, s)) =~= m.insert(
                            k0,
                            coerce_val(op, s),
                        ).insert(k, v));
                        lemma_apply_keys_insert(
                            m.insert(k0, coerce_val(op, s)),
                            op,
                            keys.skip(1),
                            k,
                            v,
                        );
                    }
                },
                _ => {},
            }
        }
    }
}

/// A field removed before a pass that does not name it is still absent after
/// the pass, and changes nothing else about the pass's outcome.
proof fn lemma_apply_keys_remove(m: Map<Seq<char>, Val>, op: Op, keys: Seq<Seq<char>>, k: Seq<char>)
    requires
        !keys.contains(k),
    ensures
        match apply_keys(m, op, keys) {
            Ok(m2) => apply_keys(m.remove(k), op, keys) matches Ok(m3) && m3 == m2.remove(k),
            Err(e) => apply_keys(m.remove(k), op, keys) matches Err(e2) && e2 == e,
        },
    decreases keys.len(),
{
    let mr = m.remove(k);
    if keys.len() == 0 {
    } else {
        let k0 = keys[0];
        assert(k0 != k);
        lemma_contains_head_or_tail(keys, k);
        if op == Op::Drop {
            assert(mr.remove(k0) =~= m.remove(k0).remove(k));
            lemma_apply_keys_remove(m.remove(k0), op, keys.skip(1), k);
        } else if !m.contains_key(k0) {
            lemma_apply_keys_remove(m, op, keys.skip(1), k);
        } else {
            assert(mr[k0] == m[k0]);
            match m[k0] {
                Val::Str(s) => {
                    if coerce_ok(op, s) {
                        assert(mr.insert(k0, coerce_val(op, s)) =~= m.insert(
                            k0,
                            coerce_val(op, s),
                        ).remove(k));
                        lemma_apply_keys_remove(
                            m.insert(k0, coerce_val(op, s)),
                            op,
                            keys.skip(1),
                            k,
                        );
                    }
                },
                _ => {},
            }
        }
    }
}

/// One operator on one field commutes with a pass over fields not naming it.
proof fn lemma_one_then_keys(
    m: Map<Seq<char>, Val>,
    op1: Op,
    k: Seq<char>,
    op2: Op,
    keys2: Seq<Seq<char>>,
)
    requires
        !keys2.contains(k),
    ensures
        ({
            let a = then_keys(apply_one(m, op1, k), op2, keys2);
            let b = match apply_keys(m, op2, keys2) {
                Ok(m2) => apply_one(m2, op1, k),
                Err(e) => Err(e),
            };
            (a is Ok <==> b is Ok) && (a is Ok ==> a == b)
        }),
{
    lemma_apply_keys_frame(m, op2, keys2, k);
    if op1 == Op::Drop {
        lemma_apply_keys_remove(m, op2, keys2, k);
    } else if !m.contains_key(k) {
    } else {
        match m[k] {
            Val::Str(s) => {
                if coerce_ok(op1, s) {
                    lemma_apply_keys_insert(m, op2, keys2, k, coerce_val(op1, s));
                }
            },
            _ => {},
        }
    }
}

/// Two operators over field sets that share no name commute: either order
/// succeeds exactly when the other does, and on success both orders yield the
/// same event.
pub proof fn lemma_disjoint_ops_commute(
    m: Map<Seq<char>, Val>,
    op1: Op,
    keys1: Seq<Seq<char>>,
    op2: Op,
    keys2: Seq<Seq<char>>,
)
    requires
        forall|k: Seq<char>| !(#[trigger] keys1.contains(k) && keys2.contains(k)),
    ensures
        ({
            let a = then_keys(apply_keys(m, op1, keys1), op2, keys2);
            let b = then_keys(apply_keys(m, op2, keys2), op1, keys1);
            (a is Ok <==> b is Ok) && (a is Ok ==> a == b)
        }),
    decreases keys1.len(),
{
    let a = then_keys(apply_keys(m, op1, keys1), op2, keys2);
    let b = then_keys(apply_keys(m, op2, keys2), op1, keys1);
    if keys1.len() == 0 {
    } else {
        let k = keys1[0];
        assert(keys1.contains(k));
        assert(!keys2.contains(k));
        assert forall|x: Seq<char>| !(#[trigger] keys1.skip(1).contains(x) && keys2.contains(
            x,
        )) by {
            if keys1.skip(1).contains(x) {
                lemma_contains_head_or_tail(keys1, x);
            }
        }
        lemma_one_then_keys(m, op1, k, op2, keys2);
        match apply_one(m, op1, k) {
            Ok(m1) => {
                lemma_disjoint_ops_commute(m1, op1, keys1.skip(1), op2, keys2);
                // Both chains agree step by step: first the head key, then the
                // remaining keys against the second pass.
                match apply_keys(m, op2, keys2) {
                    Ok(m2) => {
                        assert(then_keys(apply_one(m, op1, k), op2, keys2) == apply_keys(
                            m1,
                            op2,
                            keys2,
                        ));
                        match apply_one(m2, op1, k) {
                            Ok(mx) => {
                                assert(apply_keys(m1, op2, keys2) matches Ok(q) && q == mx);
                                assert(b == apply_keys(mx, op1, keys1.skip(1)));
                                assert(then_keys(apply_keys(m1, op2, keys2), op1, keys1.skip(1))
                                    == apply_keys(mx, op1, keys1.skip(1)));
                            },
                            Err(_) => {
                                assert(apply_keys(m1, op2, keys2) is Err);
                            },
                        }
                    },
                    Err(_) => {
                        assert(apply_keys(m1, op2, keys2) is Err);
                    },
                }
            },
            Err(_) => {
                // The head key already fails; it fails after the second pass
                // just the same, so neither order succeeds.
                assert(a is Err);
                match apply_keys(m, op2, keys2) {
                    Ok(m2) => {
                        assert(apply_one(m2, op1, k) is Err);
                        assert(apply_keys(m2, op1, keys1) is Err);
                    },
                    Err(_) => {},
                }
            },
        }
    }
}

/// A coercion pass neither adds nor removes fields: only `drop` changes which
/// fields an event has.
proof fn lemma_coerce_preserves_dom(m: Map<Seq<char>, Val>, op: Op, keys: Seq<Seq<char>>)
    requires
        op != Op::Drop,
    ensures
        apply_keys(m, op, keys) matches Ok(m2) ==> (forall|k: Seq<char>| #[trigger]
            m2.contains_key(k) == m.contains_key(k)),
    decreases keys.len(),
{
    if keys.len() > 0 && apply_keys(m, op, keys) is Ok {
        let n = apply_one(m, op, keys[0])->Ok_0;
        assert(forall|k: Seq<char>| #[trigger] n.contains_key(k) == m.contains_key(k));
        lemma_coerce_preserves_dom(n, op, keys.skip(1));
    }
}

/// Under a successful coercion pass, every listed field that was present held
/// text the operator accepts, and now holds the coerced value.
pub proof fn lemma_coerce_success(
    m: Map<Seq<char>, Val>,
    op: Op,
    keys: Seq<Seq<char>>,
    k: Seq<char>,
)
    requires
        op != Op::Drop,
        apply_keys(m, op, keys) is Ok,
        keys.contains(k),
        m.contains_key(k),
    ensures
        m[k] matches Val::Str(s) && coerce_ok(op, s) && (apply_keys(m, op, keys) matches Ok(m2)
            && m2.contains_key(k) && m2[k] == coerce_val(op, s)),
    decreases keys.len(),
{
    let k0 = keys[0];
    let n = apply_one(m, op, k0)->Ok_0;
    lemma_contains_head_or_tail(keys, k);
    if k0 == k {
        let s = m[k]->Str_0;
        let cv = coerce_val(op, s);
        assert(n == m.insert(k, cv));
        if keys.skip(1).contains(k) {
            lemma_coerce_success(n, op, keys.skip(1), k);
        } else {
            lemma_apply_keys_frame(n, op, keys.skip(1), k);
        }
    } else {
        assert(n.contains_key(k) && n[k] == m[k]);
        assert(keys.skip(1).contains(k));
        lemma_coerce_success(n, op, keys.skip(1), k);
    }
}

/// A listed present field whose text the operator rejects fails the pass.
pub proof fn lemma_coerce_failure(
    m: Map<Seq<char>, Val>,
    op: Op,
    keys: Seq<Seq<char>>,
    k: Seq<char>,
    s: Seq<char>,
)
    requires
        op != Op::Drop,
        keys.contains(k),
        m.contains_key(k),
        m[k] == Val::Str(s),
        !coerce_ok(op, s),
    ensures
        apply_keys(m, op, keys) is Err,
{
    if apply_keys(m, op, keys) is Ok {
        lemma_coerce_success(m, op, keys, k);
    }
}

/// A failed coercion of a single field names that field, the operator, and
/// the raw text in its error.
pub proof fn lemma_coerce_error_names_field(
    m: Map<Seq<char>, Val>,
    op: Op,
    k: Seq<char>,
    s: Seq<char>,
)
    requires
        op != Op::Drop,
        m.contains_key(k),
        m[k] == Val::Str(s),
        !coerce_ok(op, s),
    ensures
        apply_keys(m, op, seq![k]) matches Err(e) && e == (ErrVal::FieldFormat {
            field: k,
            op,
            raw: s,
        }),
{
    assert(seq![k][0] == k);
}

/// A field holding a well-formed array literal is rewritten, by a successful
/// to-array pass, to exactly the array that literal parses to.
pub proof fn lemma_to_array_parses(m: Map<Seq<char>, Val>, keys: Seq<Seq<char>>, k: Seq<char>)
    requires
        apply_keys(m, Op::ToArray, keys) is Ok,
        keys.contains(k),
        m.contains_key(k),
    ensures
        m[k] matches Val::Str(s) && json_array_parse(s) is Some && (apply_keys(
            m,
            Op::ToArray,
            keys,
        ) matches Ok(m2) && m2.contains_key(k) && m2[k] == Val::Arr(json_array_parse(s)->0)),
{
    lemma_coerce_success(m, Op::ToArray, keys, k);
}

/// A field holding a base-10 integer literal is rewritten, by a successful
/// to-int pass, to exactly that integer.
pub proof fn lemma_to_int_parses(m: Map<Seq<char>, Val>, keys: Seq<Seq<char>>, k: Seq<char>)
    requires
        apply_keys(m, Op::ToInt, keys) is Ok,
        keys.contains(k),
        m.contains_key(k),
    ensures
        m[k] matches Val::Str(s) && crate::parse::int_literal_ok(s) && (apply_keys(
            m,
            Op::ToInt,
            keys,
        ) matches Ok(m2) && m2.contains_key(k) && m2[k] == Val::Int(
            crate::parse::int_literal_value(s),
        )),
{
    lemma_coerce_success(m, Op::ToInt, keys, k);
}

/// A field list holds a name it lists.
proof fn lemma_contains_at(keys: Seq<Seq<char>>, j: int, x: Seq<char>)
    requires
        0 <= j < keys.len(),
        keys[j] == x,
    ensures
        keys.contains(x),
{
}

/// A name unequal to every listed name is not listed.
proof fn lemma_absent(keys: Seq<Seq<char>>, x: Seq<char>)
    requires
        forall|i: int| 0 <= i < keys.len() ==> #[trigger] keys[i] != x,
    ensures
        !keys.contains(x),
{
}

/// Texts of different lengths differ.
proof fn lemma_len_differs(a: Seq<char>, b: Seq<char>)
    requires
        a.len() != b.len(),
    ensures
        a != b,
{
}

/// A validated reference-data account event has the declared shape: the two
/// bookkeeping fields are gone; the list, count and date fields, where the
/// row had them, now hold arrays and integers; the active flag, where the row
/// had it, still holds its text.
#[verifier::rlimit(60)]
pub proof fn lemma_reference_data_account_shape(m: Map<Seq<char>, Val>)
    requires
        apply_steps(m, crate::endpoint::reference_data_account_steps()) is Ok,
    ensures
        ({
            let m2 = apply_steps(m, crate::endpoint::reference_data_account_steps())->Ok_0;
            &&& !m2.contains_key("key"@)
            &&& !m2.contains_key("event_external_id"@)
            &&& m.contains_key("account_cards"@) ==> m2.contains_key("account_cards"@)
                && m2["account_cards"@] is Arr
            &&& m.contains_key("account_customers"@) ==> m2.contains_key("account_customers"@)
                && m2["account_customers"@] is Arr
            &&& m.contains_key("account_limits"@) ==> m2.contains_key("account_limits"@)
                && m2["account_limits"@] is Arr
            &&& m.contains_key("account_number_of_cards"@) ==> m2.contains_key(
                "account_number_of_cards"@,
            ) && m2["account_number_of_cards"@] is Int
            &&& m.contains_key("account_open_date"@) ==> m2.contains_key("account_open_date"@)
                && m2["account_open_date"@] is Int
            &&& m.contains_key("account_active"@) ==> m2.contains_key("account_active"@)
                && m2["account_active"@] == m["account_active"@] && m["account_active"@] is Str
        }),
{
    reveal_strlit("key");
    reveal_strlit("event_external_id");
    reveal_strlit("account_cards");
    reveal_strlit("account_customers");
    reveal_strlit("account_limits");
    reveal_strlit("account_number_of_cards");
    reveal_strlit("account_open_date");
    reveal_strlit("account_active");
    let steps = crate::endpoint::reference_data_account_steps();
    let k1 = steps[0].keys;
    let k2 = steps[1].keys;
    let k3 = steps[2].keys;
    let k4 = steps[3].keys;
    let s1 = steps.skip(1);
    let s2 = s1.skip(1);
    let s3 = s2.skip(1);
    assert(s1[0] == steps[1] && s2[0] == steps[2] && s3[0] == steps[3]);
    assert(s3.skip(1).len() == 0);
    lemma_drop_removes_exactly(m, k1);
    let m1 = apply_keys(m, Op::Drop, k1)->Ok_0;
    assert(apply_steps(m, steps) == apply_steps(m1, s1));
    let ra = apply_keys(m1, Op::ToArray, k2);
    assert(ra is Ok) by {
        if ra is Err {
            assert(apply_steps(m1, s1) is Err);
        }
    }
    let ma = ra->Ok_0;
    assert(apply_steps(m1, s1) == apply_steps(ma, s2));
    let ri = apply_keys(ma, Op::ToInt, k3);
    assert(ri is Ok) by {
        if ri is Err {
            assert(apply_steps(ma, s2) is Err);
        }
    }
    let mi = ri->Ok_0;
    assert(apply_steps(ma, s2) == apply_steps(mi, s3));
    let rs = apply_keys(mi, Op::ToStr, k4);
    assert(rs is Ok) by {
        if rs is Err {
            assert(apply_steps(mi, s3) is Err);
        }
    }
    let m2 = rs->Ok_0;
    assert(apply_steps(m2, s3.skip(1)) matches Ok(y) && y == m2);
    assert(apply_steps(mi, s3) matches Ok(x) && x == m2);
    assert(apply_steps(m, steps)->Ok_0 == m2);
    lemma_coerce_preserves_dom(m1, Op::ToArray, k2);
    lemma_coerce_preserves_dom(ma, Op::ToInt, k3);
    lemma_coerce_preserves_dom(mi, Op::ToStr, k4);
    lemma_contains_at(k1, 0, "key"@);
    lemma_contains_at(k1, 1, "event_external_id"@);
    assert(!m1.contains_key("key"@) && !m1.contains_key("event_external_id"@));
    // The key lists are pairwise disjoint; where two names share a length,
    // an index where they differ tells them apart.
    assert("key"@.len() == 3 && "event_external_id"@.len() == 17);
    assert("account_cards"@.len() == 13 && "account_customers"@.len() == 17);
    assert("account_limits"@.len() == 14 && "account_active"@.len() == 14);
    assert("account_number_of_cards"@.len() == 23 && "account_open_date"@.len() == 17);
    assert("account_customers"@[0] == 'a' && "event_external_id"@[0] == 'e');
    assert("account_customers"@[8] == 'c' && "account_open_date"@[8] == 'o');
    assert("account_limits"@[8] == 'l' && "account_active"@[8] == 'a');
    if m.contains_key("account_cards"@) {
        let nm = "account_cards"@;
        assert(k1[0] != nm && k1[1] != nm);
        lemma_absent(k1, nm);
        assert(k3[0] != nm && k3[1] != nm);
        assert(k4[0] != nm);
        lemma_absent(k3, nm);
        lemma_absent(k4, nm);
        assert(m1.contains_key(nm) && m1[nm] == m[nm]);
        lemma_coerce_success(m1, Op::ToArray, k2, nm);
        lemma_apply_keys_frame(ma, Op::ToInt, k3, nm);
        lemma_apply_keys_frame(mi, Op::ToStr, k4, nm);
    }
    if m.contains_key("account_customers"@) {
        let nm = "account_customers"@;
        assert(k1[0] != nm && k1[1] != nm);
        lemma_absent(k1, nm);
        assert(k3[0] != nm && k3[1] != nm);
        assert(k4[0] != nm);
        lemma_absent(k3, nm);
        lemma_absent(k4, nm);
        assert(m1.contains_key(nm) && m1[nm] == m[nm]);
        lemma_coerce_success(m1, Op::ToArray, k2, nm);
        lemma_apply_keys_frame(ma, Op::ToInt, k3, nm);
        lemma_apply_keys_frame(mi, Op::ToStr, k4, nm);
    }
    if m.contains_key("account_limits"@) {
        let nm = "account_limits"@;
        assert(k1[0] != nm && k1[1] != nm);
        lemma_absent(k1, nm);
        assert(k3[0] != nm && k3[1] != nm);
        assert(k4[0] != nm);
        lemma_absent(k3, nm);
        lemma_absent(k4, nm);
        assert(m1.contains_key(nm) && m1[nm] == m[nm]);
        lemma_coerce_success(m1, Op::ToArray, k2, nm);
        lemma_apply_keys_frame(ma, Op::ToInt, k3, nm);
        lemma_apply_keys_frame(mi, Op::ToStr, k4, nm);
    }
    if m.contains_key("account_number_of_cards"@) {
        let nm = "account_number_of_cards"@;
        assert(k1[0] != nm && k1[1] != nm);
        assert(k2[0] != nm && k2[1] != nm && k2[2] != nm);
        assert(k4[0] != nm);
        lemma_absent(k1, nm);
        lemma_absent(k2, nm);
        lemma_absent(k4, nm);
        assert(!k1.contains(nm));
        assert(m1.contains_key(nm));
        assert(m1[nm] == m[nm]);
        lemma_apply_keys_frame(m1, Op::ToArray, k2, nm);
        lemma_coerce_success(ma, Op::ToInt, k3, nm);
        lemma_apply_keys_frame(mi, Op::ToStr, k4, nm);
    }
    if m.contains_key("account_open_date"@) {
        let nm = "account_open_date"@;
        assert(k1[0] != nm && k1[1] != nm);
        assert(k2[0] != nm && k2[1] != nm && k2[2] != nm);
        assert(k4[0] != nm);
        lemma_absent(k1, nm);
        lemma_absent(k2, nm);
        lemma_absent(k4, nm);
        assert(!k1.contains(nm));
        assert(m1.contains_key(nm));
        assert(m1[nm] == m[nm]);
        lemma_apply_keys_frame(m1, Op::ToArray, k2, nm);
        lemma_coerce_success(ma, Op::ToInt, k3, nm);
        lemma_apply_keys_frame(mi, Op::ToStr, k4, nm);
    }
    if m.contains_key("account_active"@) {
        let nm = "account_active"@;
        assert(k1[0] != nm && k1[1] != nm);
        assert(k2[0] != nm && k2[1] != nm && k2[2] != nm);
        assert(k3[0] != nm && k3[1] != nm);
        lemma_absent(k1, nm);
        lemma_absent(k2, nm);
        lemma_absent(k3, nm);
        assert(m1.contains_key(nm) && m1[nm] == m[nm]);
        lemma_apply_keys_frame(m1, Op::ToArray, k2, nm);
        lemma_apply_keys_frame(ma, Op::ToInt, k3, nm);
        lemma_coerce_success(mi, Op::ToStr, k4, nm);
    }
}

/// A field that no step of a schema names passes through a successful
/// validation unchanged: still present exactly if it was, with the value it
/// had.
pub proof fn lemma_schema_passes_through(m: Map<Seq<char>, Val>, steps: Seq<StepVal>, k: Seq<char>)
    requires
        forall|i: int| 0 <= i < steps.len() ==> !(#[trigger] steps[i]).keys.contains(k),
    ensures
        apply_steps(m, steps) matches Ok(m2) ==> m2.contains_key(k) == m.contains_key(k) && (
        m.contains_key(k) ==> m2[k] == m[k]),
    decreases steps.len(),
{
    if steps.len() > 0 && apply_steps(m, steps) is Ok {
        lemma_apply_keys_frame(m, steps[0].op, steps[0].keys, k);
        let n = apply_keys(m, steps[0].op, steps[0].keys)->Ok_0;
        assert(forall|i: int| 0 <= i < steps.skip(1).len() ==> (#[trigger] steps.skip(1)[i])
            == steps[i + 1]);
        lemma_schema_passes_through(n, steps.skip(1), k);
    }
}

/// An endpoint without a declared schema fails every batch with exactly the
/// unimplemented-schema error, whatever the rows hold.
pub proof fn lemma_unimplemented_endpoint(
    endpoint: Endpoint,
    hs: Seq<Seq<char>>,
    rows: Seq<Seq<Seq<char>>>,
)
    requires
        endpoint != Endpoint::ReferenceDataAccount,
    ensures
        batch_result(endpoint, hs, rows) matches Err(e) && e == (ErrVal::UnimplementedSchema {
            endpoint,
        }),
{
}

/// One failing row fails the whole batch: no validated rows come out, however
/// many rows there are.
pub proof fn lemma_batch_fail_fast(
    steps: Seq<StepVal>,
    hs: Seq<Seq<char>>,
    rows: Seq<Seq<Seq<char>>>,
    k: int,
)
    requires
        0 <= k < rows.len(),
        row_result(steps, hs, rows[k]) is Err,
    ensures
        rows_result(steps, hs, rows) is Err,
    decreases rows.len(),
{
    if k < rows.len() - 1 {
        assert(rows.drop_last()[k] == rows[k]);
        lemma_batch_fail_fast(steps, hs, rows.drop_last(), k);
    }
}

} // verus!
