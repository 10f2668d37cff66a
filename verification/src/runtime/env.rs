//! Variable environments: a stack of scopes of bindings.
//!
//! The bindings of all scopes sit in one list, inner scopes after outer
//! ones; `starts` records where each scope begins. A name is declared once
//! per scope, so the last binding with a name is the innermost one.

use vstd::prelude::*;
use crate::text::str_eq;
use super::values::Value;

verus! {

/// One binding.
#[derive(Debug)]
pub struct Binding {
    pub name: String,
    pub value: Value,
    /// Whether `let mut` allowed reassignment.
    pub mutable: bool,
}

/// The last index at or after `lo` of a binding called `name`.
pub open spec fn find_binding(bs: Seq<Binding>, name: Seq<char>, lo: int) -> Option<int>
    decreases bs.len(),
{
    if bs.len() <= lo || bs.len() == 0 {
        None
    } else if bs.last().name@ == name {
        Some(bs.len() - 1)
    } else {
        find_binding(bs.drop_last(), name, lo)
    }
}

/// Binding `nb` in the scope that begins at `lo`: a binding of the same
/// name there is replaced in place, otherwise `nb` goes last.
pub open spec fn define_spec(bs: Seq<Binding>, lo: int, nb: Binding) -> Seq<Binding> {
    match find_binding(bs, nb.name@, lo) {
        Some(j) => bs.update(j, nb),
        None => bs.push(nb),
    }
}

/// Binding each of `nbs` in turn in the scope that begins at `lo`.
pub open spec fn define_all(bs: Seq<Binding>, lo: int, nbs: Seq<Binding>) -> Seq<Binding>
    decreases nbs.len(),
{
    if nbs.len() == 0 {
        bs
    } else {
        define_all(define_spec(bs, lo, nbs[0]), lo, nbs.drop_first())
    }
}

proof fn lemma_find_binding_range(bs: Seq<Binding>, name: Seq<char>, lo: int)
    ensures
        find_binding(bs, name, lo) matches Some(j) ==> lo <= j < bs.len() && 0 <= j && bs[j].name@ == name,
    decreases bs.len(),
{
    if bs.len() > lo && bs.len() > 0 && bs.last().name@ != name {
        lemma_find_binding_range(bs.drop_last(), name, lo);
        let r = find_binding(bs.drop_last(), name, lo);
        assert(find_binding(bs, name, lo) == r);
        if r is Some {
            let j = r->Some_0;
            assert(lo <= j < bs.len() - 1 && 0 <= j);
            assert(bs.drop_last()[j] == bs[j]);
        }
    }
}

proof fn lemma_define_all_keeps(bs: Seq<Binding>, lo: int, nbs: Seq<Binding>)
    requires
        0 <= lo <= bs.len(),
    ensures
        define_all(bs, lo, nbs).len() >= bs.len(),
        define_all(bs, lo, nbs).take(lo) == bs.take(lo),
    decreases nbs.len(),
{
    if nbs.len() > 0 {
        let b1 = define_spec(bs, lo, nbs[0]);
        lemma_find_binding_range(bs, nbs[0].name@, lo);
        assert(b1.take(lo) =~= bs.take(lo));
        lemma_define_all_keeps(b1, lo, nbs.drop_first());
    }
}

/// Opening a scope, binding any names in it and closing it leaves the
/// bindings of the outer scopes as they were: what the inner scope bound,
/// shadowing included, is gone.
pub proof fn law_scope_bindings_restore(bs: Seq<Binding>, nbs: Seq<Binding>)
    ensures
        define_all(bs, bs.len() as int, nbs).take(bs.len() as int) == bs,
{
    lemma_define_all_keeps(bs, bs.len() as int, nbs);
    assert(bs.take(bs.len() as int) =~= bs);
}

/// A stack of scopes.
#[derive(Debug)]
pub struct Env {
    bindings: Vec<Binding>,
    starts: Vec<usize>,
}

impl Env {
    /// The bindings, outermost scope first.
    pub closed spec fn bindings(&self) -> Seq<Binding> {
        self.bindings@
    }

    /// Where each scope's bindings begin, outermost first.
    pub closed spec fn starts(&self) -> Seq<usize> {
        self.starts@
    }

    /// The invariant: there is always the global scope, and the scopes
    /// begin in order within the bindings.
    pub closed spec fn wf(&self) -> bool {
        &&& self.starts@.len() >= 1
        &&& self.starts@[0] == 0
        &&& forall|i: int, j: int| 0 <= i <= j < self.starts@.len() ==> self.starts@[i] <= self.starts@[j]
        &&& forall|i: int| 0 <= i < self.starts@.len() ==> self.starts@[i] <= self.bindings@.len()
    }

    /// Where the innermost scope begins.
    pub closed spec fn innermost_start(&self) -> int {
        self.starts@.last() as int
    }

    /// The value bound to `name`, innermost scope first.
    pub open spec fn lookup(&self, name: Seq<char>) -> Option<Binding> {
        match find_binding(self.bindings(), name, 0) {
            Some(j) => Some(self.bindings()[j]),
            None => None,
        }
    }

    /// An environment with only the global scope.
    pub fn new() -> (e: Env)
        ensures
            e.wf(),
            e.bindings().len() == 0,
            e.starts().len() == 1,
    {
        let mut starts: Vec<usize> = Vec::new();
        starts.push(0);
        Env { bindings: Vec::new(), starts }
    }

    /// Opens a scope; returns the new depth.
    pub fn push(&mut self) -> (d: usize)
        requires
            old(self).wf(),
        ensures
            final(self).wf(),
            final(self).bindings() == old(self).bindings(),
            final(self).starts() == old(self).starts().push(old(self).bindings().len() as usize),
            d == final(self).starts().len(),
    {
        let n = self.bindings.len();
        self.starts.push(n);
        self.starts.len()
    }

    /// Closes the innermost scope, never the global one, dropping its
    /// bindings; returns the depth left.
    pub fn pop(&mut self) -> (d: usize)
        requires
            old(self).wf(),
        ensures
            final(self).wf(),
            old(self).starts().len() > 1 ==> final(self).starts() == old(self).starts().drop_last()
                && final(self).bindings() == old(self).bindings().take(old(self).innermost_start()),
            old(self).starts().len() == 1 ==> *final(self) == *old(self),
            d == final(self).starts().len(),
    {
        if self.starts.len() > 1 {
            let s = self.starts.pop().unwrap();
            self.bindings.truncate(s);
        }
        self.starts.len()
    }

    /// Finds the last binding called `name` at or after index `lo`.
    fn find(&self, name: &str, lo: usize) -> (r: Option<usize>)
        requires
            lo <= self.bindings@.len(),
        ensures
            match r {
                Some(j) => find_binding(self.bindings@, name@, lo as int) == Some(j as int) && lo <= j < self.bindings@.len(),
                None => find_binding(self.bindings@, name@, lo as int) is None,
            },
    {
        let mut k = self.bindings.len();
        assert(self.bindings@.take(k as int) =~= self.bindings@);
        while k > lo
            invariant
                lo <= k <= self.bindings@.len(),
                find_binding(self.bindings@, name@, lo as int) == find_binding(self.bindings@.take(k as int), name@, lo as int),
            decreases k,
        {
            proof {
                let t = self.bindings@.take(k as int);
                assert(t.drop_last() =~= self.bindings@.take(k - 1));
                assert(t.last() == self.bindings@[k - 1]);
            }
            if str_eq(self.bindings[k - 1].name.as_str(), name) {
                return Some(k - 1);
            }
            k = k - 1;
        }
        None
    }

    /// Binds `name` in the innermost scope; a binding of the same name in
    /// that scope is replaced in place.
    pub fn define(&mut self, name: String, value: Value, mutable: bool)
        requires
            old(self).wf(),
        ensures
            final(self).wf(),
            final(self).starts() == old(self).starts(),
            final(self).bindings() == define_spec(old(self).bindings(), old(self).innermost_start(),
                Binding { name, value, mutable }),
    {
        let lo = self.starts[self.starts.len() - 1];
        match self.find(name.as_str(), lo) {
            Some(j) => {
                self.bindings.set(j, Binding { name, value, mutable });
            },
            None => {
                self.bindings.push(Binding { name, value, mutable });
            },
        }
    }

    /// The value bound to `name`, innermost scope first.
    pub fn get(&self, name: &str) -> (r: Option<&Value>)
        ensures
            match self.lookup(name@) {
                Some(b) => r == Some(&b.value),
                None => r is None,
            },
    {
        match self.find(name, 0) {
            Some(j) => Some(&self.bindings[j].value),
            None => None,
        }
    }

    /// Whether `name` is bound.
    pub fn contains(&self, name: &str) -> (b: bool)
        ensures
            b == self.lookup(name@) is Some,
    {
        self.find(name, 0).is_some()
    }

    /// Assigns to the innermost binding of `name`: `Ok(true)` when it is
    /// mutable and now holds `value`, `Ok(false)` (and nothing changes) when
    /// it is immutable, `Err(())` when `name` is not bound.
    pub fn assign(&mut self, name: &str, value: Value) -> (r: Result<bool, ()>)
        requires
            old(self).wf(),
        ensures
            final(self).wf(),
            final(self).starts() == old(self).starts(),
            match find_binding(old(self).bindings(), name@, 0) {
                None => r == Err::<bool, ()>(()) && final(self).bindings() == old(self).bindings(),
                Some(j) => if old(self).bindings()[j].mutable {
                    r == Ok::<bool, ()>(true) && final(self).bindings().len() == old(self).bindings().len()
                        && final(self).bindings()[j].value == value
                        && final(self).bindings()[j].name@ == old(self).bindings()[j].name@
                        && final(self).bindings()[j].mutable
                        && forall|k: int| 0 <= k < old(self).bindings().len() && k != j
                            ==> final(self).bindings()[k] == old(self).bindings()[k]
                } else {
                    r == Ok::<bool, ()>(false) && final(self).bindings() == old(self).bindings()
                },
            },
    {
        match self.find(name, 0) {
            None => Err(()),
            Some(j) => {
                if !self.bindings[j].mutable {
                    return Ok(false);
                }
                let kept = self.bindings[j].name.clone();
                self.bindings.set(j, Binding { name: kept, value, mutable: true });
                Ok(true)
            },
        }
    }

    /// The number of open scopes.
    pub fn depth(&self) -> (d: usize)
        ensures
            d == self.starts().len(),
    {
        self.starts.len()
    }
}

} // verus!
