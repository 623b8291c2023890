//! Records: the fields of one imported entity, each name with its value.

use crate::text::{find, lemma_find_first, lemma_find_is};
use vstd::prelude::*;

verus! {

/// One field: its name, then its value.
pub type Entry = (Seq<char>, Seq<char>);

/// The names of the fields, in their order.
pub open spec fn names(es: Seq<Entry>) -> Seq<Seq<char>> {
    Seq::new(es.len(), |i: int| es[i].0)
}

/// No name occurs twice.
pub open spec fn distinct(es: Seq<Entry>) -> bool {
    forall|i: int, j: int| 0 <= i < j < es.len() ==> es[i].0 != es[j].0
}

/// A field named `name` is among `es`.
pub open spec fn contains_name(es: Seq<Entry>, name: Seq<char>) -> bool {
    find(names(es), name) < es.len()
}

/// The fields once `name` is given `value`: a field of that name keeps its
/// place and takes the value, a new name goes to the end.
pub open spec fn put(es: Seq<Entry>, name: Seq<char>, value: Seq<char>) -> Seq<Entry> {
    let i = find(names(es), name) as int;
    if i < es.len() {
        es.update(i, (name, value))
    } else {
        es.push((name, value))
    }
}

/// The mapping from each name to its value.
pub open spec fn to_map(es: Seq<Entry>) -> Map<Seq<char>, Seq<char>> {
    Map::new(
        |name: Seq<char>| contains_name(es, name),
        |name: Seq<char>| es[find(names(es), name) as int].1,
    )
}

/// Giving a name a value keeps the names distinct and is an insertion into
/// the mapping.
pub proof fn lemma_put(es: Seq<Entry>, name: Seq<char>, value: Seq<char>)
    requires
        distinct(es),
    ensures
        distinct(put(es, name, value)),
        to_map(put(es, name, value)) == to_map(es).insert(name, value),
        put(es, name, value).len() == if contains_name(es, name) {
            es.len()
        } else {
            es.len() + 1
        },
{
    let ns = names(es);
    let after = put(es, name, value);
    let i = find(ns, name) as int;
    lemma_find_first(ns, name);
    if i < es.len() {
        assert(names(after) == ns);
    } else {
        assert(names(after) == ns.push(name));
        assert forall|q: Seq<char>| #[trigger] find(names(after), q) == (if contains_name(es, q) {
            find(ns, q)
        } else if q == name {
            es.len()
        } else {
            (es.len() + 1) as nat
        }) by {
            lemma_find_first(ns, q);
            if contains_name(es, q) {
                lemma_find_is(names(after), q, find(ns, q) as int);
            } else if q == name {
                lemma_find_is(names(after), q, es.len() as int);
            } else {
                lemma_find_is(names(after), q, es.len() as int + 1);
            }
        }
    }
    assert forall|a: int, b: int| 0 <= a < b < after.len() implies after[a].0 != after[b].0 by {
        if i >= es.len() && b == es.len() {
            assert(ns[a] != name);
        }
    }
    assert forall|q: Seq<char>| #[trigger]
        to_map(after).dom().contains(q) == to_map(es).insert(name, value).dom().contains(
            q,
        ) by {
        lemma_find_first(ns, q);
    }
    assert forall|q: Seq<char>| #[trigger] to_map(after).dom().contains(q) implies to_map(after)[q]
        == to_map(es).insert(name, value)[q] by {
        lemma_find_first(ns, q);
    }
}

/// Fields with distinct names map each name to its own value, and the
/// mapping has as many names as there are fields.
pub proof fn lemma_to_map(es: Seq<Entry>)
    requires
        distinct(es),
    ensures
        forall|i: int|
            0 <= i < es.len() ==> to_map(es).contains_key(#[trigger] es[i].0) && to_map(
                es,
            )[es[i].0] == es[i].1,
        to_map(es).dom().finite(),
        to_map(es).len() == es.len(),
    decreases es.len(),
{
    assert forall|i: int| 0 <= i < es.len() implies to_map(es).contains_key(#[trigger] es[i].0)
        && to_map(es)[es[i].0] == es[i].1 by {
        lemma_find_is(names(es), es[i].0, i);
    }
    if es.len() == 0 {
        lemma_find_first(names(es), arbitrary::<Seq<char>>());
        assert(to_map(es) =~= Map::<Seq<char>, Seq<char>>::empty());
    } else {
        let front = es.drop_last();
        let last = es.last();
        lemma_to_map(front);
        lemma_find_is(names(front), last.0, front.len() as int);
        assert(put(front, last.0, last.1) == es);
        lemma_put(front, last.0, last.1);
    }
}

/// A record: field names with their values. No name occurs twice; the
/// fields keep the order in which their names first came.
pub struct Record {
    fields: Vec<(String, String)>,
}

impl View for Record {
    type V = Map<Seq<char>, Seq<char>>;

    /// The mapping from each field's name to its value.
    open spec fn view(&self) -> Map<Seq<char>, Seq<char>> {
        to_map(self.entries())
    }
}

impl Record {
    /// The fields in their order.
    pub closed spec fn entries(&self) -> Seq<Entry> {
        Seq::new(self.fields.len() as nat, |i: int| (self.fields[i].0@, self.fields[i].1@))
    }

    #[verifier::type_invariant]
    closed spec fn well_formed(&self) -> bool {
        distinct(self.entries())
    }

    /// A record without fields.
    pub fn new() -> (record: Record)
        ensures
            record.entries() == Seq::<Entry>::empty(),
            record@ == Map::<Seq<char>, Seq<char>>::empty(),
    {
        Record { fields: Vec::new() }
    }

    /// The number of fields.
    pub fn len(&self) -> (n: usize)
        ensures
            n == self.entries().len(),
            n == self@.len(),
            distinct(self.entries()),
    {
        proof {
            use_type_invariant(self);
            lemma_to_map(self.entries());
        }
        self.fields.len()
    }

    /// The place of the field named `name`, or `len()` where there is none.
    pub fn position(&self, name: &String) -> (at: usize)
        ensures
            at == find(names(self.entries()), name@),
            at <= self.entries().len(),
    {
        let mut at: usize = 0;
        while at < self.fields.len() && !(self.fields[at].0 == *name)
            invariant
                at <= self.fields.len(),
                forall|j: int| 0 <= j < at ==> names(self.entries())[j] != name@,
            decreases self.fields.len() - at,
        {
            at += 1;
        }
        proof {
            lemma_find_is(names(self.entries()), name@, at as int);
        }
        at
    }

    /// The name and the value of the field at place `at`.
    pub fn entry(&self, at: usize) -> (field: (&String, &String))
        requires
            at < self.entries().len(),
        ensures
            (field.0@, field.1@) == self.entries()[at as int],
    {
        (&self.fields[at].0, &self.fields[at].1)
    }

    /// The value of the field named `name`, if there is one.
    pub fn get(&self, name: &String) -> (value: Option<&String>)
        ensures
            match value {
                Some(v) => self@.contains_key(name@) && v@ == self@[name@],
                None => !self@.contains_key(name@),
            },
    {
        let at = self.position(name);
        if at < self.fields.len() {
            Some(&self.fields[at].1)
        } else {
            None
        }
    }

    /// Gives the field `name` the value `value`. A field of that name keeps
    /// its place; a new name is added after the others.
    pub fn insert(&mut self, name: String, value: String)
        ensures
            final(self).entries() == put(old(self).entries(), name@, value@),
            final(self)@ == old(self)@.insert(name@, value@),
    {
        proof {
            use_type_invariant(&*self);
            lemma_put(self.entries(), name@, value@);
        }
        let at = self.position(&name);
        let mut fields: Vec<(String, String)> = Vec::new();
        core::mem::swap(&mut self.fields, &mut fields);
        if at < fields.len() {
            fields.set(at, (name, value));
        } else {
            fields.push((name, value));
        }
        let ghost after = Seq::new(fields.len() as nat, |i: int| (fields[i].0@, fields[i].1@));
        assert(after == put(old(self).entries(), name@, value@));
        self.fields = fields;
    }
}

} // verus!
