use crate::error::ErrVal;
use crate::error::ValidateError;
use crate::event::names_of;
use crate::event::Event;
use crate::float::check_float_literal;
use crate::float::float_literal_ok;
use crate::parse::bool_literal_ok;
use crate::parse::bool_literal_value;
use crate::parse::int_literal_ok;
use crate::parse::int_literal_value;
use crate::parse::parse_bool_literal;
use crate::parse::parse_int_literal;
use crate::value::json_array_parse;
use crate::value::parse_json_array;
use crate::value::FieldValue;
use crate::value::Val;
use vstd::prelude::*;

verus! {

/// The coercion operators a schema can apply to a list of fields.
#[derive(Debug, Clone, Copy, PartialEq, Eq, Structural)]
pub enum Op {
    /// Remove the listed fields; absent fields are ignored.
    Drop,
    /// Parse each listed field's text as a JSON array literal.
    ToArray,
    /// Parse each listed field's text as a base-10 signed 64-bit integer.
    ToInt,
    /// Check each listed field's text as a 64-bit float literal.
    ToFloat,
    /// Keep each listed field's text as it stands.
    ToStr,
    /// Parse each listed field's text as `true` or `false`.
    ToBool,
}

/// Whether a coercion accepts a field's text.
pub open spec fn coerce_ok(op: Op, s: Seq<char>) -> bool {
    match op {
        Op::Drop => true,
        Op::ToArray => json_array_parse(s) is Some,
        Op::ToInt => int_literal_ok(s),
        Op::ToFloat => float_literal_ok(s),
        Op::ToStr => true,
        Op::ToBool => bool_literal_ok(s),
    }
}

/// The value a coercion turns a field's text into.
pub open spec fn coerce_val(op: Op, s: Seq<char>) -> Val {
    match op {
        Op::Drop => Val::Str(s),
        Op::ToArray => Val::Arr(json_array_parse(s)->0),
        Op::ToInt => Val::Int(int_literal_value(s)),
        Op::ToFloat => Val::Float(s),
        Op::ToStr => Val::Str(s),
        Op::ToBool => Val::Bool(bool_literal_value(s)),
    }
}

/// One operator applied to one field: a drop removes it; a coercion rewrites
/// a present text field, skips an absent one, and fails on unparsable text —
/// naming the field — or on a field that no longer holds text.
pub open spec fn apply_one(m: Map<Seq<char>, Val>, op: Op, k: Seq<char>) -> Result<
    Map<Seq<char>, Val>,
    ErrVal,
> {
    if op == Op::Drop {
        Ok(m.remove(k))
    } else if !m.contains_key(k) {
        Ok(m)
    } else {
        match m[k] {
            Val::Str(s) => if coerce_ok(op, s) {
                Ok(m.insert(k, coerce_val(op, s)))
            } else {
                Err(ErrVal::FieldFormat { field: k, op, raw: s })
            },
            _ => Err(ErrVal::MalformedInput),
        }
    }
}

/// One operator applied to a list of fields, left to right, stopping at the
/// first failure.
pub open spec fn apply_keys(m: Map<Seq<char>, Val>, op: Op, keys: Seq<Seq<char>>) -> Result<
    Map<Seq<char>, Val>,
    ErrVal,
>
    decreases keys.len(),
{
    if keys.len() == 0 {
        Ok(m)
    } else {
        match apply_one(m, op, keys[0]) {
            Ok(m2) => apply_keys(m2, op, keys.skip(1)),
            Err(e) => Err(e),
        }
    }
}

/// Turns a field's text into the operator's value; `None` exactly on text the
/// operator does not accept.
fn coerce_value(op: Op, s: &str) -> (r: Option<FieldValue>)
    requires
        op != Op::Drop,
    ensures
        r is Some <==> coerce_ok(op, s@),
        r matches Some(v) ==> v@ == coerce_val(op, s@),
{
    match op {
        Op::Drop => None,
        Op::ToArray => match parse_json_array(s) {
            Some(v) => Some(FieldValue::Array(v)),
            None => None,
        },
        Op::ToInt => match parse_int_literal(s) {
            Some(n) => Some(FieldValue::Int(n)),
            None => None,
        },
        Op::ToFloat => if check_float_literal(s) {
            Some(FieldValue::Float(s.to_owned()))
        } else {
            None
        },
        Op::ToStr => Some(FieldValue::Str(s.to_owned())),
        Op::ToBool => match parse_bool_literal(s) {
            Some(b) => Some(FieldValue::Bool(b)),
            None => None,
        },
    }
}

impl Event {
    /// Applies one operator to one field, with the failure attributed to that
    /// field.
    pub fn convert(&mut self, key: &str, op: Op) -> (r: Result<(), ValidateError>)
        requires
            old(self).wf(),
        ensures
            final(self).wf(),
            match r {
                Ok(_) => apply_one(old(self)@, op, key@) matches Ok(m) && m == final(self)@,
                Err(e) => (apply_one(old(self)@, op, key@) matches Err(e2) && e2 == e@)
                    && final(self)@ == old(self)@,
            },
    {
        match op {
            Op::Drop => {
                self.remove(key);
                return Ok(());
            },
            _ => {},
        }
        let text: String;
        match self.get(key) {
            None => {
                return Ok(());
            },
            Some(v) => match v {
                FieldValue::Str(s) => {
                    text = s.clone();
                },
                _ => {
                    return Err(ValidateError::MalformedInput);
                },
            },
        }
        match coerce_value(op, text.as_str()) {
            Some(v) => {
                self.insert(key.to_owned(), v);
                Ok(())
            },
            None => Err(
                ValidateError::FieldFormat { field: key.to_owned(), op, raw: text },
            ),
        }
    }

    /// Applies one operator to each listed field, left to right, stopping at
    /// the first failure.
    pub fn coerce_fields(self, op: Op, keys: &Vec<String>) -> (r: Result<Event, ValidateError>)
        requires
            self.wf(),
        ensures
            match r {
                Ok(ev) => ev.wf() && (apply_keys(self@, op, names_of(keys@)) matches Ok(m) && m
                    == ev@),
                Err(e) => apply_keys(self@, op, names_of(keys@)) matches Err(e2) && e2 == e@,
            },
    {
        let ghost ks = names_of(keys@);
        let mut ev = self;
        let n = keys.len();
        let mut i: usize = 0;
        proof {
            assert(ks.skip(0) =~= ks);
        }
        while i < n
            invariant
                i <= n,
                n == keys@.len(),
                ks == names_of(keys@),
                ev.wf(),
                apply_keys(self@, op, ks) == apply_keys(ev@, op, ks.skip(i as int)),
            decreases n - i,
        {
            let ghost pre = ev@;
            let r = ev.convert(keys[i].as_str(), op);
            proof {
                assert(ks.skip(i as int)[0] == ks[i as int]);
                assert(ks[i as int] == keys@[i as int]@);
                assert(ks.skip(i as int).skip(1) =~= ks.skip(i + 1));
            }
            match r {
                Ok(_) => {},
                Err(e) => {
                    return Err(e);
                },
            }
            i = i + 1;
        }
        proof {
            assert(ks.skip(n as int) =~= Seq::<Seq<char>>::empty());
        }
        Ok(ev)
    }

    /// Removes the listed fields; absent fields are silently ignored.
    pub fn drop_fields(self, keys: &Vec<String>) -> (r: Result<Event, ValidateError>)
        requires
            self.wf(),
        ensures
            match r {
                Ok(ev) => ev.wf() && (apply_keys(self@, Op::Drop, names_of(keys@)) matches Ok(m)
                    && m == ev@),
                Err(e) => apply_keys(self@, Op::Drop, names_of(keys@)) matches Err(e2) && e2 == e@,
            },
    {
        self.coerce_fields(Op::Drop, keys)
    }

    /// Rewrites the listed fields as parsed JSON arrays.
    pub fn array_fields(self, keys: &Vec<String>) -> (r: Result<Event, ValidateError>)
        requires
            self.wf(),
        ensures
            match r {
                Ok(ev) => ev.wf() && (apply_keys(self@, Op::ToArray, names_of(keys@)) matches Ok(m)
                    && m == ev@),
                Err(e) => apply_keys(self@, Op::ToArray, names_of(keys@)) matches Err(e2) && e2
                    == e@,
            },
    {
        self.coerce_fields(Op::ToArray, keys)
    }

    /// Rewrites the listed fields as parsed 64-bit signed integers.
    pub fn int_fields(self, keys: &Vec<String>) -> (r: Result<Event, ValidateError>)
        requires
            self.wf(),
        ensures
            match r {
                Ok(ev) => ev.wf() && (apply_keys(self@, Op::ToInt, names_of(keys@)) matches Ok(m)
                    && m == ev@),
                Err(e) => apply_keys(self@, Op::ToInt, names_of(keys@)) matches Err(e2) && e2
                    == e@,
            },
    {
        self.coerce_fields(Op::ToInt, keys)
    }

    /// Rewrites the listed fields as checked float literals.
    pub fn float_fields(self, keys: &Vec<String>) -> (r: Result<Event, ValidateError>)
        requires
            self.wf(),
        ensures
            match r {
                Ok(ev) => ev.wf() && (apply_keys(self@, Op::ToFloat, names_of(keys@)) matches Ok(m)
                    && m == ev@),
                Err(e) => apply_keys(self@, Op::ToFloat, names_of(keys@)) matches Err(e2) && e2
                    == e@,
            },
    {
        self.coerce_fields(Op::ToFloat, keys)
    }

    /// Keeps the listed fields as text; present to make schemas declarative.
    pub fn str_fields(self, keys: &Vec<String>) -> (r: Result<Event, ValidateError>)
        requires
            self.wf(),
        ensures
            match r {
                Ok(ev) => ev.wf() && (apply_keys(self@, Op::ToStr, names_of(keys@)) matches Ok(m)
                    && m == ev@),
                Err(e) => apply_keys(self@, Op::ToStr, names_of(keys@)) matches Err(e2) && e2
                    == e@,
            },
    {
        self.coerce_fields(Op::ToStr, keys)
    }

    /// Rewrites the listed fields as parsed booleans.
    pub fn bool_fields(self, keys: &Vec<String>) -> (r: Result<Event, ValidateError>)
        requires
            self.wf(),
        ensures
            match r {
                Ok(ev) => ev.wf() && (apply_keys(self@, Op::ToBool, names_of(keys@)) matches Ok(m)
                    && m == ev@),
                Err(e) => apply_keys(self@, Op::ToBool, names_of(keys@)) matches Err(e2) && e2
                    == e@,
            },
    {
        self.coerce_fields(Op::ToBool, keys)
    }
}

/// One schema step: an operator and the fields it names.
#[derive(Debug, Clone, PartialEq)]
pub struct Step {
    pub op: Op,
    pub keys: Vec<String>,
}

/// The mathematical shape of a step.
pub struct StepVal {
    pub op: Op,
    pub keys: Seq<Seq<char>>,
}

impl View for Step {
    type V = StepVal;

    open spec fn view(&self) -> StepVal {
        StepVal { op: self.op, keys: names_of(self.keys@) }
    }
}

/// A validator: the ordered steps an endpoint's schema declares.
#[derive(Debug, Clone, PartialEq)]
pub struct Schema {
    pub steps: Vec<Step>,
}

impl View for Schema {
    type V = Seq<StepVal>;

    open spec fn view(&self) -> Seq<StepVal> {
        self.steps@.map_values(|st: Step| st@)
    }
}

/// A schema applied step by step, stopping at the first failure.
pub open spec fn apply_steps(m: Map<Seq<char>, Val>, steps: Seq<StepVal>) -> Result<
    Map<Seq<char>, Val>,
    ErrVal,
>
    decreases steps.len(),
{
    if steps.len() == 0 {
        Ok(m)
    } else {
        match apply_keys(m, steps[0].op, steps[0].keys) {
            Ok(m2) => apply_steps(m2, steps.skip(1)),
            Err(e) => Err(e),
        }
    }
}

impl Schema {
    /// Applies the schema's steps to an event, left to right, returning the
    /// first failure if any step fails.
    pub fn validate(&self, event: Event) -> (r: Result<Event, ValidateError>)
        requires
            event.wf(),
        ensures
            match r {
                Ok(ev) => ev.wf() && (apply_steps(event@, self@) matches Ok(m) && m == ev@),
                Err(e) => apply_steps(event@, self@) matches Err(e2) && e2 == e@,
            },
    {
        let ghost steps = self@;
        let mut ev = event;
        let n = self.steps.len();
        let mut i: usize = 0;
        proof {
            assert(steps.skip(0) =~= steps);
        }
        while i < n
            invariant
                i <= n,
                n == self.steps@.len(),
                steps == self@,
                ev.wf(),
                apply_steps(event@, steps) == apply_steps(ev@, steps.skip(i as int)),
            decreases n - i,
        {
            let step = &self.steps[i];
            let r = ev.coerce_fields(step.op, &step.keys);
            proof {
                assert(steps.skip(i as int)[0] == steps[i as int]);
                assert(steps[i as int] == self.steps@[i as int]@);
                assert(steps.skip(i as int).skip(1) =~= steps.skip(i + 1));
            }
            match r {
                Ok(next) => {
                    ev = next;
                },
                Err(e) => {
                    return Err(e);
                },
            }
            i = i + 1;
        }
        proof {
            assert(steps.skip(n as int) =~= Seq::<StepVal>::empty());
        }
        Ok(ev)
    }
}

impl Event {
    /// Validates this event against a schema.
    pub fn validate(self, validator: &Schema) -> (r: Result<Event, ValidateError>)
        requires
            self.wf(),
        ensures
            match r {
                Ok(ev) => ev.wf() && (apply_steps(self@, validator@) matches Ok(m) && m == ev@),
                Err(e) => apply_steps(self@, validator@) matches Err(e2) && e2 == e@,
            },
    {
        validator.validate(self)
    }
}

} // verus!
