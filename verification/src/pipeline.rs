use crate::endpoint::reference_data_account_steps;
use crate::endpoint::Endpoint;
use crate::error::ErrVal;
use crate::error::ValidateError;
use crate::event::names_of;
use crate::event::row_map;
use crate::event::Event;
use crate::schema::apply_steps;
use crate::schema::StepVal;
use crate::value::Val;
use vstd::prelude::*;

verus! {

/// One row validated: rejected outright when its length differs from the
/// header's, else built into an event and run through the schema.
pub open spec fn row_result(steps: Seq<StepVal>, hs: Seq<Seq<char>>, row: Seq<Seq<char>>) -> Result<
    Map<Seq<char>, Val>,
    ErrVal,
> {
    if hs.len() != row.len() {
        Err(ErrVal::MalformedInput)
    } else {
        apply_steps(row_map(hs, row), steps)
    }
}

/// A whole batch validated in row order, stopping at the first failure; on
/// success, the validated events stand in row order.
pub open spec fn rows_result(
    steps: Seq<StepVal>,
    hs: Seq<Seq<char>>,
    rows: Seq<Seq<Seq<char>>>,
) -> Result<Seq<Map<Seq<char>, Val>>, ErrVal>
    decreases rows.len(),
{
    if rows.len() == 0 {
        Ok(Seq::empty())
    } else {
        match rows_result(steps, hs, rows.drop_last()) {
            Ok(t) => match row_result(steps, hs, rows.last()) {
                Ok(m) => Ok(t.push(m)),
                Err(e) => Err(e),
            },
            Err(e) => Err(e),
        }
    }
}

/// A batch validated for an endpoint: an endpoint without a declared schema
/// fails before any row is touched.
pub open spec fn batch_result(
    endpoint: Endpoint,
    hs: Seq<Seq<char>>,
    rows: Seq<Seq<Seq<char>>>,
) -> Result<Seq<Map<Seq<char>, Val>>, ErrVal> {
    if endpoint != Endpoint::ReferenceDataAccount {
        Err(ErrVal::UnimplementedSchema { endpoint })
    } else {
        rows_result(reference_data_account_steps(), hs, rows)
    }
}

/// The texts of each row.
pub open spec fn rows_view(rows: Seq<Vec<String>>) -> Seq<Seq<Seq<char>>> {
    rows.map_values(|r: Vec<String>| names_of(r@))
}

/// The mappings of each event.
pub open spec fn events_view(evs: Seq<Event>) -> Seq<Map<Seq<char>, Val>> {
    evs.map_values(|e: Event| e@)
}

/// Validates every row of a batch against the selected endpoint's schema, in
/// row order; the first failure aborts the whole run with no partial output.
pub fn validate_batch(endpoint: Endpoint, headers: &Vec<String>, rows: &Vec<Vec<String>>) -> (r:
    Result<Vec<Event>, ValidateError>)
    ensures
        match r {
            Ok(evs) => (batch_result(endpoint, names_of(headers@), rows_view(rows@)) matches Ok(ms)
                && ms == events_view(evs@)) && (forall|i: int|
                0 <= i < evs@.len() ==> (#[trigger] evs@[i]).wf()),
            Err(e) => batch_result(endpoint, names_of(headers@), rows_view(rows@)) matches Err(e2)
                && e2 == e@,
        },
{
    let ghost hs = names_of(headers@);
    let ghost rv = rows_view(rows@);
    let ghost steps = reference_data_account_steps();
    let validator = match endpoint.validator() {
        Ok(s) => s,
        Err(e) => {
            return Err(e);
        },
    };
    let n = rows.len();
    let mut out: Vec<Event> = Vec::new();
    let mut i: usize = 0;
    proof {
        assert(rv.take(0) =~= Seq::<Seq<Seq<char>>>::empty());
        assert(events_view(out@) =~= Seq::<Map<Seq<char>, Val>>::empty());
    }
    while i < n
        invariant
            i <= n,
            n == rows@.len(),
            hs == names_of(headers@),
            rv == rows_view(rows@),
            steps == reference_data_account_steps(),
            validator@ == steps,
            endpoint == Endpoint::ReferenceDataAccount,
            rows_result(steps, hs, rv.take(i as int)) matches Ok(ms) && ms == events_view(out@),
            forall|q: int| 0 <= q < out@.len() ==> (#[trigger] out@[q]).wf(),
        decreases n - i,
    {
        proof {
            assert(rv[i as int] == names_of(rows@[i as int]@));
            assert(rv.take(i + 1).drop_last() =~= rv.take(i as int));
            assert(rv.take(i + 1).last() == rv[i as int]);
        }
        let ev = match Event::from_row(headers, &rows[i]) {
            Ok(ev) => ev,
            Err(e) => {
                proof {
                    lemma_rows_result_extends_error(steps, hs, rv, i + 1);
                }
                return Err(e);
            },
        };
        let validated = match validator.validate(ev) {
            Ok(v) => v,
            Err(e) => {
                proof {
                    lemma_rows_result_extends_error(steps, hs, rv, i + 1);
                }
                return Err(e);
            },
        };
        out.push(validated);
        proof {
            assert(events_view(out@) =~= events_view(out@.drop_last()).push(out@.last()@));
        }
        i = i + 1;
    }
    proof {
        assert(rv.take(n as int) =~= rv);
    }
    Ok(out)
}

/// Once a prefix of the batch has failed, the whole batch fails the same way.
proof fn lemma_rows_result_extends_error(
    steps: Seq<StepVal>,
    hs: Seq<Seq<char>>,
    rows: Seq<Seq<Seq<char>>>,
    k: int,
)
    requires
        0 <= k <= rows.len(),
        rows_result(steps, hs, rows.take(k)) is Err,
    ensures
        rows_result(steps, hs, rows) == rows_result(steps, hs, rows.take(k)),
    decreases rows.len() - k,
{
    if k == rows.len() {
        assert(rows.take(k) =~= rows);
    } else {
        assert(rows.take(k + 1).drop_last() =~= rows.take(k));
        lemma_rows_result_extends_error(steps, hs, rows, k + 1);
    }
}

} // verus!
