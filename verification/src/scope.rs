//! One lexical scope: the identifier-to-register bindings of a block, the
//! registers occupied by live values in it, and a LIFO of registers reserved
//! for pending return values.
//!
//! Scopes are strictly nested; the code generator keeps them on a stack and
//! reclaims a scope's registers when the scope is left.

use vstd::prelude::*;

use crate::bytes::bytes_eq;
use crate::bytes::to_vec_bytes;

verus! {

/// Mathematical view of a [`Scope`]: the binding map (keys unique, order
/// irrelevant), the live registers, and the pending return registers.
#[verifier::ext_equal]
pub ghost struct ScopeView {
    pub vars: Map<Seq<u8>, u8>,
    pub used: Seq<u8>,
    pub rets: Seq<u8>,
}

/// No identifier occurs twice among the binding entries.
pub open spec fn keys_unique(entries: Seq<(Vec<u8>, u8)>) -> bool {
    forall|i: int, j: int|
        0 <= i < j < entries.len() ==> entries[i].0@ != entries[j].0@
}

/// The binding map denoted by an association list.
pub open spec fn assoc_map(entries: Seq<(Vec<u8>, u8)>) -> Map<Seq<u8>, u8>
    decreases entries.len(),
{
    if entries.len() == 0 {
        Map::empty()
    } else {
        assoc_map(entries.drop_last()).insert(entries.last().0@, entries.last().1)
    }
}

/// With unique keys, membership and value of the binding map follow the
/// association list entries.
pub proof fn lemma_assoc_map_entries(entries: Seq<(Vec<u8>, u8)>, name: Seq<u8>)
    requires
        keys_unique(entries),
    ensures
        assoc_map(entries).contains_key(name) <==> (exists|i: int|
            0 <= i < entries.len() && entries[i].0@ == name),
        forall|i: int|
            0 <= i < entries.len() && entries[i].0@ == name ==> assoc_map(entries)[name]
                == entries[i].1,
    decreases entries.len(),
{
    if entries.len() > 0 {
        assert(keys_unique(entries.drop_last()));
        lemma_assoc_map_entries(entries.drop_last(), name);
        if entries.last().0@ == name {
            assert(entries[entries.len() - 1].0@ == name);
        } else {
            assert forall|i: int|
                0 <= i < entries.len() && entries[i].0@ == name implies assoc_map(
                entries,
            )[name] == entries[i].1 by {
                assert(entries.drop_last()[i] == entries[i]);
            }
            assert(assoc_map(entries).contains_key(name) ==> exists|i: int|
                0 <= i < entries.len() && entries[i].0@ == name) by {
                if assoc_map(entries.drop_last()).contains_key(name) {
                    let i = choose|i: int|
                        0 <= i < entries.drop_last().len() && entries.drop_last()[i].0@ == name;
                    assert(entries[i].0@ == name);
                }
            }
            assert((exists|i: int| 0 <= i < entries.len() && entries[i].0@ == name)
                ==> assoc_map(entries).contains_key(name)) by {
                if exists|i: int| 0 <= i < entries.len() && entries[i].0@ == name {
                    let i = choose|i: int| 0 <= i < entries.len() && entries[i].0@ == name;
                    assert(i < entries.len() - 1);
                    assert(entries.drop_last()[i].0@ == name);
                }
            }
        }
    }
}

/// Removing the entry that holds `name` removes `name` from the map.
pub proof fn lemma_assoc_map_remove(entries: Seq<(Vec<u8>, u8)>, i: int)
    requires
        keys_unique(entries),
        0 <= i < entries.len(),
    ensures
        assoc_map(entries.remove(i)) == assoc_map(entries).remove(entries[i].0@),
    decreases entries.len(),
{
    let name = entries[i].0@;
    if i == entries.len() - 1 {
        assert(entries.remove(i) =~= entries.drop_last());
        lemma_assoc_map_entries(entries.drop_last(), name);
        assert(!assoc_map(entries.drop_last()).contains_key(name)) by {
            if assoc_map(entries.drop_last()).contains_key(name) {
                let j = choose|j: int|
                    0 <= j < entries.drop_last().len() && entries.drop_last()[j].0@ == name;
                assert(entries[j].0@ == entries[i].0@);
            }
        }
        assert(assoc_map(entries.drop_last()) =~= assoc_map(entries).remove(name));
    } else {
        assert(keys_unique(entries.drop_last()));
        lemma_assoc_map_remove(entries.drop_last(), i);
        assert(entries.remove(i).drop_last() =~= entries.drop_last().remove(i));
        assert(entries.remove(i).last() == entries.last());
        assert(assoc_map(entries.remove(i)) == assoc_map(entries.drop_last().remove(i)).insert(
            entries.last().0@,
            entries.last().1,
        ));
        assert(entries.last().0@ != name);
        assert(assoc_map(entries.drop_last()).remove(name).insert(
            entries.last().0@,
            entries.last().1,
        ) =~= assoc_map(entries).remove(name));
    }
}

/// One per lexically nested block (a function body, or the implicit top
/// level). Maps identifiers to allocated registers, lists the registers live
/// in the block, and stacks registers reserved for pending returns.
pub struct Scope {
    variables: Vec<(Vec<u8>, u8)>,
    used_registers: Vec<u8>,
    return_registers: Vec<u8>,
}

impl View for Scope {
    type V = ScopeView;

    closed spec fn view(&self) -> ScopeView {
        ScopeView {
            vars: assoc_map(self.variables@),
            used: self.used_registers@,
            rets: self.return_registers@,
        }
    }
}

impl Scope {
    /// The internal association list holds each identifier at most once.
    pub closed spec fn wf(self) -> bool {
        keys_unique(self.variables@)
    }

    /// What `name` resolves to in this scope alone.
    pub open spec fn spec_get(self, name: Seq<u8>) -> Option<u8> {
        if self@.vars.contains_key(name) {
            Some(self@.vars[name])
        } else {
            None
        }
    }

    /// Creates and returns a new, empty scope.
    pub fn new() -> (s: Scope)
        ensures
            s.wf(),
            s@.vars == Map::<Seq<u8>, u8>::empty(),
            s@.used == Seq::<u8>::empty(),
            s@.rets == Seq::<u8>::empty(),
    {
        Scope { variables: Vec::new(), used_registers: Vec::new(), return_registers: Vec::new() }
    }

    /// Finds the position of `name` in the association list, if present.
    fn find(&self, name: &[u8]) -> (r: Option<usize>)
        requires
            self.wf(),
        ensures
            match r {
                Some(i) => i < self.variables@.len() && self.variables@[i as int].0@ == name@,
                None => forall|i: int|
                    0 <= i < self.variables@.len() ==> self.variables@[i].0@ != name@,
            },
    {
        let n: usize = self.variables.len();
        let mut i: usize = 0;
        while i < n
            invariant
                n == self.variables@.len(),
                0 <= i <= n,
                forall|j: int| 0 <= j < i ==> self.variables@[j].0@ != name@,
            decreases n - i,
        {
            if bytes_eq(self.variables[i].0.as_slice(), name) {
                return Some(i);
            }
            i = i + 1;
        }
        None
    }

    /// Checks whether this scope binds `variable`.
    pub fn has_variable(&self, variable: &[u8]) -> (b: bool)
        requires
            self.wf(),
        ensures
            b == self@.vars.contains_key(variable@),
    {
        proof {
            lemma_assoc_map_entries(self.variables@, variable@);
        }
        match self.find(variable) {
            Some(_) => true,
            None => false,
        }
    }

    /// Binds `identifier` to `register` in this scope, overwriting any
    /// earlier binding of the same name.
    pub fn new_variable(&mut self, identifier: &[u8], register: u8)
        requires
            old(self).wf(),
        ensures
            final(self).wf(),
            final(self)@.vars == old(self)@.vars.insert(identifier@, register),
            final(self)@.used == old(self)@.used,
            final(self)@.rets == old(self)@.rets,
    {
        let entry = (to_vec_bytes(identifier), register);
        match self.find(identifier) {
            Some(i) => {
                proof {
                    lemma_assoc_map_remove(self.variables@, i as int);
                }
                self.variables.remove(i);
                proof {
                    assert forall|a: int, b: int|
                        0 <= a < b < self.variables@.len() implies self.variables@[a].0@
                        != self.variables@[b].0@ by {
                        // entries after removal come from distinct old positions
                    }
                    assert(keys_unique(self.variables@));
                }
                self.variables.push(entry);
                proof {
                    assert(self.variables@.drop_last() =~= old(self).variables@.remove(i as int));
                    assert(self@.vars =~= old(self)@.vars.insert(identifier@, register));
                    assert forall|a: int, b: int|
                        0 <= a < b < self.variables@.len() implies self.variables@[a].0@
                        != self.variables@[b].0@ by {
                        if b < self.variables@.len() - 1 {
                        } else {
                            assert(self.variables@[b].0@ == identifier@);
                        }
                    }
                }
            },
            None => {
                self.variables.push(entry);
                proof {
                    assert(self.variables@.drop_last() =~= old(self).variables@);
                    assert(self@.vars =~= old(self)@.vars.insert(identifier@, register));
                    assert forall|a: int, b: int|
                        0 <= a < b < self.variables@.len() implies self.variables@[a].0@
                        != self.variables@[b].0@ by {
                        if b == self.variables@.len() - 1 {
                            assert(self.variables@[a] == old(self).variables@[a]);
                        }
                    }
                }
            },
        }
    }

    /// Looks `variable` up in this scope alone; `None` when it is not bound
    /// here.
    pub fn get_variable(&self, variable: &[u8]) -> (r: Option<u8>)
        requires
            self.wf(),
        ensures
            r == self.spec_get(variable@),
    {
        proof {
            lemma_assoc_map_entries(self.variables@, variable@);
        }
        match self.find(variable) {
            Some(i) => Some(self.variables[i].1),
            None => None,
        }
    }

    /// Returns the registers occupied by live values in this scope, so the
    /// allocator can reclaim them when the scope is left.
    pub fn get_registers(&self) -> (r: Vec<u8>)
        ensures
            r@ == self@.used,
    {
        let n: usize = self.used_registers.len();
        let mut r: Vec<u8> = Vec::new();
        let mut i: usize = 0;
        while i < n
            invariant
                n == self.used_registers@.len(),
                0 <= i <= n,
                r@ == self.used_registers@.subrange(0, i as int),
            decreases n - i,
        {
            r.push(self.used_registers[i]);
            i = i + 1;
            proof {
                assert(r@ =~= self.used_registers@.subrange(0, i as int));
            }
        }
        proof {
            assert(self.used_registers@.subrange(0, n as int) =~= self.used_registers@);
        }
        r
    }

    /// Records `register` as occupied by a live value in this scope.
    pub fn add_used_register(&mut self, register: u8)
        ensures
            final(self)@.vars == old(self)@.vars,
            final(self)@.used == old(self)@.used.push(register),
            final(self)@.rets == old(self)@.rets,
            final(self).wf() == old(self).wf(),
    {
        self.used_registers.push(register);
    }

    /// Reserves `register` for a pending return value.
    pub fn add_return_register(&mut self, register: u8)
        ensures
            final(self)@.vars == old(self)@.vars,
            final(self)@.used == old(self)@.used,
            final(self)@.rets == old(self)@.rets.push(register),
            final(self).wf() == old(self).wf(),
    {
        self.return_registers.push(register);
    }

    /// Releases the most recently reserved return register, if any.
    pub fn pop_return_register(&mut self) -> (r: Option<u8>)
        ensures
            final(self)@.vars == old(self)@.vars,
            final(self)@.used == old(self)@.used,
            final(self).wf() == old(self).wf(),
            old(self)@.rets.len() == 0 ==> r is None && final(self)@.rets == old(self)@.rets,
            old(self)@.rets.len() > 0 ==> r == Some(old(self)@.rets.last()) && final(self)@.rets
                == old(self)@.rets.drop_last(),
    {
        self.return_registers.pop()
    }

    /// Returns a copy of the whole stack of pending return registers.
    pub fn clone_all_return_registers(&mut self) -> (r: Vec<u8>)
        ensures
            *final(self) == *old(self),
            r@ == old(self)@.rets,
    {
        let n: usize = self.return_registers.len();
        let mut r: Vec<u8> = Vec::new();
        let mut i: usize = 0;
        while i < n
            invariant
                n == self.return_registers@.len(),
                0 <= i <= n,
                r@ == self.return_registers@.subrange(0, i as int),
                *self == *old(self),
            decreases n - i,
        {
            r.push(self.return_registers[i]);
            i = i + 1;
            proof {
                assert(r@ =~= self.return_registers@.subrange(0, i as int));
            }
        }
        proof {
            assert(self.return_registers@.subrange(0, n as int) =~= self.return_registers@);
        }
        r
    }
}

} // verus!
