//! Environments: the bindings from symbols to expressions against which
//! atoms are resolved.

use crate::expr::{Expression, Sexp};
use vstd::prelude::*;

verus! {

/// The mapping that a sequence of bindings stands for: where a symbol is
/// bound more than once, the binding that comes last counts.
spec fn bindings_of(entries: Seq<(String, Expression)>) -> Map<Seq<char>, Sexp>
    decreases entries.len(),
{
    if entries.len() == 0 {
        Map::empty()
    } else {
        bindings_of(entries.drop_last()).insert(entries.last().0@, entries.last().1@)
    }
}

/// A symbol that no entry names is not bound.
proof fn lemma_bindings_absent(entries: Seq<(String, Expression)>, key: Seq<char>)
    requires
        forall|j: int| 0 <= j < entries.len() ==> (#[trigger] entries[j]).0@ != key,
    ensures
        !bindings_of(entries).contains_key(key),
    decreases entries.len(),
{
    if entries.len() > 0 {
        lemma_bindings_absent(entries.drop_last(), key);
    }
}

/// A symbol is bound to the value of the last entry that names it.
proof fn lemma_bindings_last_match(entries: Seq<(String, Expression)>, i: int)
    requires
        0 <= i < entries.len(),
        forall|j: int| i < j < entries.len() ==> (#[trigger] entries[j]).0@ != entries[i].0@,
    ensures
        bindings_of(entries).contains_key(entries[i].0@),
        bindings_of(entries)[entries[i].0@] == entries[i].1@,
    decreases entries.len(),
{
    if i < entries.len() - 1 {
        lemma_bindings_last_match(entries.drop_last(), i);
    }
}

/// Replacing the last entry that names a symbol binds that symbol anew and
/// leaves the others as they were.
proof fn lemma_bindings_replace(
    entries: Seq<(String, Expression)>,
    i: int,
    entry: (String, Expression),
)
    requires
        0 <= i < entries.len(),
        entry.0@ == entries[i].0@,
        forall|j: int| i < j < entries.len() ==> (#[trigger] entries[j]).0@ != entries[i].0@,
    ensures
        bindings_of(entries.update(i, entry)) == bindings_of(entries).insert(entry.0@, entry.1@),
    decreases entries.len(),
{
    let updated = entries.update(i, entry);
    if i == entries.len() - 1 {
        assert(updated.drop_last() =~= entries.drop_last());
        assert(bindings_of(updated) =~= bindings_of(entries).insert(entry.0@, entry.1@));
    } else {
        lemma_bindings_replace(entries.drop_last(), i, entry);
        assert(updated.drop_last() =~= entries.drop_last().update(i, entry));
        assert(bindings_of(updated) =~= bindings_of(entries).insert(entry.0@, entry.1@));
    }
}

/// Whether no two entries name the same symbol.
spec fn distinct_names(entries: Seq<(String, Expression)>) -> bool {
    forall|i: int, j: int|
        0 <= i < j < entries.len() ==> (#[trigger] entries[i]).0@ != (#[trigger] entries[j]).0@
}

/// An environment: a finite mapping from symbols to expressions. It holds
/// one entry for each symbol that it binds.
#[derive(Debug)]
pub struct Env {
    bindings: Vec<(String, Expression)>,
}

impl View for Env {
    type V = Map<Seq<char>, Sexp>;

    closed spec fn view(&self) -> Map<Seq<char>, Sexp> {
        bindings_of(self.bindings@)
    }
}

impl Env {
    #[verifier::type_invariant]
    spec fn well_formed(&self) -> bool {
        distinct_names(self.bindings@)
    }

    /// The environment that binds nothing.
    pub fn new() -> (r: Env)
        ensures
            r@ == Map::<Seq<char>, Sexp>::empty(),
    {
        Env { bindings: Vec::new() }
    }

    /// The position of the entry that binds `key`, if there is one.
    fn position(&self, key: &String) -> (r: Option<usize>)
        ensures
            match r {
                Some(i) => {
                    &&& i < self.bindings.len()
                    &&& self.bindings[i as int].0@ == key@
                    &&& forall|j: int|
                        i < j < self.bindings.len() ==> (#[trigger] self.bindings[j]).0@ != key@
                },
                None => forall|j: int|
                    0 <= j < self.bindings.len() ==> (#[trigger] self.bindings[j]).0@ != key@,
            },
    {
        let mut i: usize = self.bindings.len();
        while i > 0
            invariant
                i <= self.bindings.len(),
                forall|j: int|
                    i <= j < self.bindings.len() ==> (#[trigger] self.bindings[j]).0@ != key@,
            decreases i,
        {
            i -= 1;
            if self.bindings[i].0 == *key {
                return Some(i);
            }
        }
        None
    }

    /// A copy of the expression that `key` is bound to, if it is bound.
    pub fn find_copy(&self, key: &String) -> (r: Option<Expression>)
        ensures
            match r {
                Some(e) => self@.contains_key(key@) && e@ == self@[key@],
                None => !self@.contains_key(key@),
            },
    {
        match self.position(key) {
            Some(i) => {
                proof {
                    lemma_bindings_last_match(self.bindings@, i as int);
                }
                Some(self.bindings[i].1.clone())
            },
            None => {
                proof {
                    lemma_bindings_absent(self.bindings@, key@);
                }
                None
            },
        }
    }

    /// Whether `key` is bound.
    pub fn contains(&self, key: &String) -> (r: bool)
        ensures
            r == self@.contains_key(key@),
    {
        match self.position(key) {
            Some(i) => {
                proof {
                    lemma_bindings_last_match(self.bindings@, i as int);
                }
                true
            },
            None => {
                proof {
                    lemma_bindings_absent(self.bindings@, key@);
                }
                false
            },
        }
    }

    /// Binds `key` to `value`, in place of what it was bound to before.
    pub fn insert(&mut self, key: String, value: Expression)
        ensures
            final(self)@ == old(self)@.insert(key@, value@),
    {
        proof {
            use_type_invariant(&*self);
        }
        let found = self.position(&key);
        let ghost before = self.bindings@;
        let mut entries: Vec<(String, Expression)> = Vec::new();
        core::mem::swap(&mut self.bindings, &mut entries);
        match found {
            Some(i) => {
                proof {
                    lemma_bindings_replace(before, i as int, (key, value));
                }
                entries.set(i, (key, value));
            },
            None => {
                entries.push((key, value));
                assert(entries@.drop_last() =~= before);
            },
        }
        core::mem::swap(&mut self.bindings, &mut entries);
    }
}

impl Clone for Env {
    /// A copy with the same bindings.
    fn clone(&self) -> (r: Self)
        ensures
            r@ == self@,
    {
        proof {
            use_type_invariant(self);
        }
        let mut out: Vec<(String, Expression)> = Vec::new();
        let mut i: usize = 0;
        while i < self.bindings.len()
            invariant
                i <= self.bindings.len(),
                out.len() == i,
                distinct_names(self.bindings@),
                forall|j: int| 0 <= j < i ==> (#[trigger] out[j]).0@ == self.bindings[j].0@,
                bindings_of(out@) == bindings_of(self.bindings@.take(i as int)),
            decreases self.bindings.len() - i,
        {
            let ghost before = out@;
            out.push((self.bindings[i].0.clone(), self.bindings[i].1.clone()));
            assert(out@.drop_last() =~= before);
            assert(self.bindings@.take(i + 1).drop_last() =~= self.bindings@.take(i as int));
            i += 1;
        }
        assert(self.bindings@.take(i as int) =~= self.bindings@);
        Env { bindings: out }
    }
}

} // verus!
