use crate::error::ErrVal;
use crate::error::ValidateError;
use crate::value::FieldValue;
use crate::value::Val;
use vstd::prelude::*;

verus! {

/// One row's data: a mapping from field name to value, keys unique.
#[derive(Debug, Clone, PartialEq)]
pub struct Event {
    fields: Vec<(String, FieldValue)>,
}

/// No two entries share a field name.
pub open spec fn unique_keys(s: Seq<(String, FieldValue)>) -> bool {
    forall|i: int, j: int|
        #![trigger s[i], s[j]]
        0 <= i < j < s.len() ==> s[i].0@ != s[j].0@
}

/// The mapping an entry sequence denotes, later entries winning.
pub open spec fn map_of(s: Seq<(String, FieldValue)>) -> Map<Seq<char>, Val>
    decreases s.len(),
{
    if s.len() == 0 {
        Map::empty()
    } else {
        map_of(s.drop_last()).insert(s.last().0@, s.last().1@)
    }
}

proof fn lemma_map_of_contains(s: Seq<(String, FieldValue)>, k: Seq<char>)
    ensures
        map_of(s).contains_key(k) <==> exists|i: int| 0 <= i < s.len() && (#[trigger] s[i]).0@
            == k,
    decreases s.len(),
{
    if s.len() > 0 {
        lemma_map_of_contains(s.drop_last(), k);
        if map_of(s).contains_key(k) {
            if s.last().0@ == k {
                assert(s[s.len() - 1].0@ == k);
            } else {
                let i = choose|i: int| 0 <= i < s.drop_last().len() && (#[trigger] s.drop_last()[i]).0@ == k;
                assert(s[i].0@ == k);
            }
        }
        if exists|i: int| 0 <= i < s.len() && (#[trigger] s[i]).0@ == k {
            let i = choose|i: int| 0 <= i < s.len() && (#[trigger] s[i]).0@ == k;
            if i < s.len() - 1 {
                assert(s.drop_last()[i].0@ == k);
            }
        }
    }
}

proof fn lemma_map_of_index(s: Seq<(String, FieldValue)>, i: int)
    requires
        unique_keys(s),
        0 <= i < s.len(),
    ensures
        map_of(s).contains_key(s[i].0@),
        map_of(s)[s[i].0@] == s[i].1@,
    decreases s.len(),
{
    if i < s.len() - 1 {
        assert(unique_keys(s.drop_last()));
        lemma_map_of_index(s.drop_last(), i);
        assert(s.last().0@ != s[i].0@);
    }
}

proof fn lemma_map_of_update(s: Seq<(String, FieldValue)>, i: int, p: (String, FieldValue))
    requires
        unique_keys(s),
        0 <= i < s.len(),
        p.0@ == s[i].0@,
    ensures
        unique_keys(s.update(i, p)),
        map_of(s.update(i, p)) == map_of(s).insert(p.0@, p.1@),
    decreases s.len(),
{
    let t = s.update(i, p);
    assert forall|a: int, b: int|
        #![trigger t[a], t[b]]
        0 <= a < b < t.len() implies t[a].0@ != t[b].0@ by {
        assert(s[a].0@ != s[b].0@);
    }
    if i == s.len() - 1 {
        assert(t.drop_last() =~= s.drop_last());
        assert(map_of(t) == map_of(s.drop_last()).insert(p.0@, p.1@));
        assert(map_of(s.drop_last()).insert(s.last().0@, s.last().1@).insert(p.0@, p.1@)
            =~= map_of(s.drop_last()).insert(p.0@, p.1@));
    } else {
        assert(unique_keys(s.drop_last()));
        assert(s.drop_last()[i] == s[i]);
        lemma_map_of_update(s.drop_last(), i, p);
        assert(t.drop_last() =~= s.drop_last().update(i, p));
        assert(t.last() == s.last());
        assert(s.last().0@ != p.0@);
        assert(map_of(s.drop_last()).insert(p.0@, p.1@).insert(s.last().0@, s.last().1@)
            =~= map_of(s.drop_last()).insert(s.last().0@, s.last().1@).insert(p.0@, p.1@));
    }
}

proof fn lemma_map_of_remove(s: Seq<(String, FieldValue)>, i: int)
    requires
        unique_keys(s),
        0 <= i < s.len(),
    ensures
        unique_keys(s.remove(i)),
        map_of(s.remove(i)) == map_of(s).remove(s[i].0@),
    decreases s.len(),
{
    let t = s.remove(i);
    assert forall|a: int, b: int|
        #![trigger t[a], t[b]]
        0 <= a < b < t.len() implies t[a].0@ != t[b].0@ by {
        let a1: int = if a < i {
            a
        } else {
            a + 1
        };
        let b1: int = if b < i {
            b
        } else {
            b + 1
        };
        assert(t[a] == s[a1] && t[b] == s[b1]);
        assert(s[a1].0@ != s[b1].0@);
    }
    let k = s[i].0@;
    if i == s.len() - 1 {
        assert(t =~= s.drop_last());
        lemma_map_of_contains(s.drop_last(), k);
        assert(!map_of(s.drop_last()).contains_key(k)) by {
            if exists|q: int| 0 <= q < s.drop_last().len() && (#[trigger] s.drop_last()[q]).0@
                == k {
                let q = choose|q: int| 0 <= q < s.drop_last().len() && (#[trigger] s.drop_last()[q]).0@ == k;
                assert(s[q].0@ == s[i].0@);
            }
        }
        assert(map_of(s.drop_last()).insert(k, s.last().1@).remove(k) =~= map_of(s.drop_last()));
    } else {
        assert(unique_keys(s.drop_last()));
        assert(s.drop_last()[i] == s[i]);
        lemma_map_of_remove(s.drop_last(), i);
        assert(t.drop_last() =~= s.drop_last().remove(i));
        assert(t.last() == s.last());
        assert(s.last().0@ != k);
        assert(map_of(s.drop_last()).remove(k).insert(s.last().0@, s.last().1@)
            =~= map_of(s.drop_last()).insert(s.last().0@, s.last().1@).remove(k));
    }
}

impl View for Event {
    type V = Map<Seq<char>, Val>;

    closed spec fn view(&self) -> Map<Seq<char>, Val> {
        map_of(self.fields@)
    }
}

impl Event {
    /// The entries keep one value per field name.
    pub closed spec fn wf(self) -> bool {
        unique_keys(self.fields@)
    }

    /// An event with no fields.
    pub fn new() -> (r: Event)
        ensures
            r.wf(),
            r@ == Map::<Seq<char>, Val>::empty(),
    {
        Event { fields: Vec::new() }
    }

    /// The position of a field, if present.
    fn find(&self, key: &str) -> (r: Option<usize>)
        ensures
            match r {
                Some(i) => i < self.fields@.len() && self.fields@[i as int].0@ == key@,
                None => forall|i: int|
                    0 <= i < self.fields@.len() ==> (#[trigger] self.fields@[i]).0@ != key@,
            },
    {
        let ks = key.to_owned();
        let n = self.fields.len();
        let mut i: usize = 0;
        while i < n
            invariant
                i <= n,
                n == self.fields@.len(),
                ks@ == key@,
                forall|q: int| 0 <= q < i ==> (#[trigger] self.fields@[q]).0@ != key@,
            decreases n - i,
        {
            if self.fields[i].0 == ks {
                return Some(i);
            }
            i = i + 1;
        }
        None
    }

    /// Whether a field is present.
    pub fn contains_key(&self, key: &str) -> (r: bool)
        ensures
            r == self@.contains_key(key@),
    {
        proof {
            lemma_map_of_contains(self.fields@, key@);
        }
        match self.find(key) {
            Some(_) => true,
            None => false,
        }
    }

    /// The value of a field, if present.
    pub fn get(&self, key: &str) -> (r: Option<&FieldValue>)
        requires
            self.wf(),
        ensures
            match r {
                Some(v) => self@.contains_key(key@) && v@ == self@[key@],
                None => !self@.contains_key(key@),
            },
    {
        proof {
            lemma_map_of_contains(self.fields@, key@);
        }
        match self.find(key) {
            Some(i) => {
                proof {
                    lemma_map_of_index(self.fields@, i as int);
                }
                Some(&self.fields[i].1)
            },
            None => None,
        }
    }

    /// Sets a field, replacing any value it held.
    pub fn insert(&mut self, key: String, value: FieldValue)
        requires
            old(self).wf(),
        ensures
            final(self).wf(),
            final(self)@ == old(self)@.insert(key@, value@),
    {
        proof {
            lemma_map_of_contains(self.fields@, key@);
        }
        match self.find(key.as_str()) {
            Some(i) => {
                proof {
                    lemma_map_of_update(self.fields@, i as int, (key, value));
                }
                self.fields.remove(i);
                self.fields.insert(i, (key, value));
                proof {
                    assert(self.fields@ =~= old(self).fields@.update(
                        i as int,
                        (key, value),
                    ));
                }
            },
            None => {
                self.fields.push((key, value));
                proof {
                    let s = old(self).fields@;
                    let t = self.fields@;
                    assert(t.drop_last() =~= s);
                    assert forall|a: int, b: int|
                        #![trigger t[a], t[b]]
                        0 <= a < b < t.len() implies t[a].0@ != t[b].0@ by {
                        if b < t.len() - 1 {
                            assert(s[a].0@ != s[b].0@);
                        } else {
                            assert(t[a] == s[a]);
                        }
                    }
                }
            },
        }
    }

    /// Removes a field; an absent field is silently ignored.
    pub fn remove(&mut self, key: &str)
        requires
            old(self).wf(),
        ensures
            final(self).wf(),
            final(self)@ == old(self)@.remove(key@),
    {
        proof {
            lemma_map_of_contains(self.fields@, key@);
        }
        match self.find(key) {
            Some(i) => {
                proof {
                    lemma_map_of_remove(self.fields@, i as int);
                }
                self.fields.remove(i);
                proof {
                    assert(self.fields@ =~= old(self).fields@.remove(i as int));
                }
            },
            None => {
                proof {
                    assert(old(self)@.remove(key@) =~= old(self)@);
                }
            },
        }
    }
}

/// The mapping a header row and a value row denote, every value a string,
/// later duplicates winning.
pub open spec fn row_map(hs: Seq<Seq<char>>, vs: Seq<Seq<char>>) -> Map<Seq<char>, Val>
    decreases hs.len(),
{
    if hs.len() == 0 || vs.len() == 0 {
        Map::empty()
    } else {
        row_map(hs.drop_last(), vs.drop_last()).insert(hs.last(), Val::Str(vs.last()))
    }
}

/// The names of a header row.
pub open spec fn names_of(hs: Seq<String>) -> Seq<Seq<char>> {
    hs.map_values(|h: String| h@)
}

impl Event {
    /// Builds the event of one row: each header name maps to the row's text
    /// at the same position. Rows of the wrong length are rejected.
    pub fn from_row(headers: &Vec<String>, values: &Vec<String>) -> (r: Result<Event, ValidateError>)
        ensures
            match r {
                Ok(ev) => {
                    &&& headers@.len() == values@.len()
                    &&& ev.wf()
                    &&& ev@ == row_map(names_of(headers@), names_of(values@))
                },
                Err(e) => headers@.len() != values@.len() && e@ == ErrVal::MalformedInput,
            },
    {
        if headers.len() != values.len() {
            return Err(ValidateError::MalformedInput);
        }
        let n = headers.len();
        let mut ev = Event::new();
        let mut i: usize = 0;
        proof {
            assert(names_of(headers@).take(0) =~= Seq::<Seq<char>>::empty());
            assert(row_map(names_of(headers@).take(0), names_of(values@).take(0))
                =~= Map::<Seq<char>, Val>::empty());
        }
        while i < n
            invariant
                i <= n,
                n == headers@.len(),
                n == values@.len(),
                ev.wf(),
                ev@ == row_map(names_of(headers@).take(i as int), names_of(values@).take(i as int)),
            decreases n - i,
        {
            let key = headers[i].clone();
            let value = values[i].clone();
            ev.insert(key, FieldValue::Str(value));
            proof {
                let hs = names_of(headers@);
                let vs = names_of(values@);
                assert(hs.take(i + 1).drop_last() =~= hs.take(i as int));
                assert(vs.take(i + 1).drop_last() =~= vs.take(i as int));
                assert(hs.take(i + 1).last() == headers@[i as int]@);
                assert(vs.take(i + 1).last() == values@[i as int]@);
            }
            i = i + 1;
        }
        proof {
            assert(names_of(headers@).take(n as int) =~= names_of(headers@));
            assert(names_of(values@).take(n as int) =~= names_of(values@));
        }
        Ok(ev)
    }
}

} // verus!
