//! The variable environment: the one mutable store of an interpreter
//! session.
//!
//! It maps each identifier to the value last assigned to it, holds each name
//! at most once, is written only when an assignment is evaluated and read
//! when a variable reference is evaluated, and persists across the
//! evaluations of one session.  Values are kept as the raw bit patterns
//! (`u32`) of the session's 32-bit numbers; the caller converts between a
//! machine number and its bits at the boundary.

use vstd::prelude::*;

verus! {

/// The mapping a list of bindings stands for: later entries win.
pub open spec fn map_of(entries: Seq<(String, u32)>) -> Map<Seq<char>, u32>
    decreases entries.len(),
{
    if entries.len() == 0 {
        Map::empty()
    } else {
        map_of(entries.drop_last()).insert(entries.last().0@, entries.last().1)
    }
}

/// No two entries bind the same name.
pub open spec fn unique_keys(entries: Seq<(String, u32)>) -> bool {
    forall|j: int, k: int| 0 <= j < k < entries.len() ==> entries[j].0@ != entries[k].0@
}

/// A name bound by none of the entries is absent from their mapping.
proof fn lemma_map_of_absent(entries: Seq<(String, u32)>, name: Seq<char>)
    requires
        forall|j: int| 0 <= j < entries.len() ==> entries[j].0@ != name,
    ensures
        !map_of(entries).contains_key(name),
    decreases entries.len(),
{
    if entries.len() > 0 {
        lemma_map_of_absent(entries.drop_last(), name);
    }
}

/// With unique names, the mapping returns exactly the entry's value.
proof fn lemma_map_of_found(entries: Seq<(String, u32)>, j: int)
    requires
        unique_keys(entries),
        0 <= j < entries.len(),
    ensures
        map_of(entries).contains_key(entries[j].0@),
        map_of(entries)[entries[j].0@] == entries[j].1,
    decreases entries.len(),
{
    if j < entries.len() - 1 {
        lemma_map_of_found(entries.drop_last(), j);
    }
}

/// Overwriting the entry of a bound name updates the mapping in place.
proof fn lemma_map_of_update(entries: Seq<(String, u32)>, j: int, entry: (String, u32))
    requires
        unique_keys(entries),
        0 <= j < entries.len(),
        entry.0@ == entries[j].0@,
    ensures
        map_of(entries.update(j, entry)) == map_of(entries).insert(entry.0@, entry.1),
    decreases entries.len(),
{
    let updated = entries.update(j, entry);
    if j == entries.len() - 1 {
        assert(updated.drop_last() =~= entries.drop_last());
        assert(map_of(entries).insert(entry.0@, entry.1) =~= map_of(
            entries.drop_last(),
        ).insert(entry.0@, entry.1));
    } else {
        lemma_map_of_update(entries.drop_last(), j, entry);
        assert(updated.drop_last() =~= entries.drop_last().update(j, entry));
        assert(updated.last() == entries.last());
        assert(map_of(entries.drop_last()).insert(entry.0@, entry.1).insert(
            entries.last().0@,
            entries.last().1,
        ) =~= map_of(entries.drop_last()).insert(entries.last().0@, entries.last().1).insert(
            entry.0@,
            entry.1,
        ));
    }
}

/// The variable environment of one interpreter session.
pub struct Environment {
    entries: Vec<(String, u32)>,
}

impl View for Environment {
    type V = Map<Seq<char>, u32>;

    closed spec fn view(&self) -> Map<Seq<char>, u32> {
        map_of(self.entries@)
    }
}

impl Environment {
    /// The environment's internal bindings bind each name at most once.
    pub closed spec fn wf(&self) -> bool {
        unique_keys(self.entries@)
    }

    /// A fresh session holds no bindings.
    pub fn new() -> (env: Environment)
        ensures
            env.wf(),
            env@ == Map::<Seq<char>, u32>::empty(),
    {
        Environment { entries: Vec::new() }
    }

    /// Binds `name` to `value`, overwriting any earlier binding.
    pub fn set(&mut self, name: &String, value: u32)
        requires
            old(self).wf(),
        ensures
            final(self).wf(),
            final(self)@ == old(self)@.insert(name@, value),
    {
        let n: usize = self.entries.len();
        let mut j: usize = 0;
        while j < n
            invariant
                j <= n,
                n == self.entries.len(),
                self.entries@ == old(self).entries@,
                unique_keys(self.entries@),
                forall|k: int| 0 <= k < j ==> self.entries@[k].0@ != name@,
            decreases n - j,
        {
            if self.entries[j].0 == *name {
                let entry = (name.clone(), value);
                let ghost orig = self.entries@;
                proof {
                    lemma_map_of_update(orig, j as int, entry);
                }
                self.entries.set(j, entry);
                proof {
                    assert(forall|x: int|
                        0 <= x < orig.len() ==> self.entries@[x].0@ == orig[x].0@);
                }
                return ;
            }
            j += 1;
        }
        let entry = (name.clone(), value);
        let ghost orig = self.entries@;
        proof {
            lemma_map_of_absent(orig, name@);
            assert(orig.push(entry).drop_last() =~= orig);
        }
        self.entries.push(entry);
        proof {
            assert(forall|x: int| 0 <= x < orig.len() ==> self.entries@[x].0@ == orig[x].0@);
        }
    }

    /// The value bound to `name`, or nothing when `name` was never assigned.
    pub fn get(&self, name: &String) -> (r: Option<u32>)
        requires
            self.wf(),
        ensures
            match r {
                Some(v) => self@.contains_key(name@) && self@[name@] == v,
                None => !self@.contains_key(name@),
            },
    {
        let n: usize = self.entries.len();
        let mut j: usize = 0;
        while j < n
            invariant
                j <= n,
                n == self.entries.len(),
                self.wf(),
                forall|k: int| 0 <= k < j ==> self.entries@[k].0@ != name@,
            decreases n - j,
        {
            if self.entries[j].0 == *name {
                proof {
                    lemma_map_of_found(self.entries@, j as int);
                }
                return Some(self.entries[j].1);
            }
            j += 1;
        }
        proof {
            lemma_map_of_absent(self.entries@, name@);
        }
        None
    }
}

/// Assignment and reference round-trip: after `name` is bound to `value`,
/// looking `name` up yields exactly `value`, whatever was bound before; and
/// every other binding is untouched.  With the contracts of
/// [`Environment::set`] and [`Environment::get`], this is why a session that
/// assigns a variable and later references it reads the assigned value back.
pub proof fn lemma_environment_round_trip(
    bindings: Map<Seq<char>, u32>,
    name: Seq<char>,
    value: u32,
)
    ensures
        bindings.insert(name, value).contains_key(name),
        bindings.insert(name, value)[name] == value,
        forall|other: Seq<char>|
            other != name && bindings.contains_key(other)
                ==> bindings.insert(name, value).contains_key(other) && bindings.insert(
                name,
                value,
            )[other] == bindings[other],
{
}

/// Unbound lookup fails: a name bound by nothing is absent, and in a fresh
/// session every name is absent.  With the contract of
/// [`Environment::get`], referencing a variable before assigning it yields
/// no value rather than a default.
pub proof fn lemma_unbound_lookup_fails(name: Seq<char>)
    ensures
        !Map::<Seq<char>, u32>::empty().contains_key(name),
{
}

} // verus!
