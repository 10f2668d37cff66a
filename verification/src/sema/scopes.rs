//! Scoped symbol tables.

use vstd::prelude::*;
use super::ty::{Ty, TyV};
use crate::text::str_eq;

verus! {

/// A binding visible in a scope.
#[derive(PartialEq, Debug)]
pub struct Symbol {
    pub name: String,
    pub ty: Ty,
    /// Whether `let mut` allowed reassignment of this binding.
    pub mutable: bool,
}

/// The model of a [`Symbol`].
pub struct SymV {
    pub name: Seq<char>,
    pub ty: TyV,
    pub mutable: bool,
}

impl View for Symbol {
    type V = SymV;

    open spec fn view(&self) -> SymV {
        SymV { name: self.name@, ty: self.ty@, mutable: self.mutable }
    }
}

/// What a name lookup found.
#[derive(Clone, Copy, PartialEq, Eq, Structural, Debug)]
pub enum SymbolKind {
    /// A local variable or parameter.
    Local,
    /// A top-level function.
    Function,
}

/// The models of the symbols of one scope.
pub open spec fn scope_view(s: Seq<Symbol>) -> Seq<SymV> {
    s.map_values(|x: Symbol| x@)
}

/// Whether a scope declares `name`.
pub open spec fn scope_has(scope: Seq<SymV>, name: Seq<char>) -> bool {
    exists|i: int| 0 <= i < scope.len() && #[trigger] scope[i].name == name
}

/// The latest symbol called `name` in one scope.
pub open spec fn find_in_scope(scope: Seq<SymV>, name: Seq<char>) -> Option<SymV>
    decreases scope.len(),
{
    if scope.len() == 0 {
        None
    } else if scope.last().name == name {
        Some(scope.last())
    } else {
        find_in_scope(scope.drop_last(), name)
    }
}

/// Looking `name` up, innermost scope first.
pub open spec fn lookup_spec(scopes: Seq<Seq<SymV>>, name: Seq<char>) -> Option<SymV>
    decreases scopes.len(),
{
    if scopes.len() == 0 {
        None
    } else {
        match find_in_scope(scopes.last(), name) {
            Some(s) => Some(s),
            None => lookup_spec(scopes.drop_last(), name),
        }
    }
}

/// Declaring `sym` in the innermost scope: refused (and nothing changes)
/// when that scope already declares the name.
pub open spec fn declare_spec(scopes: Seq<Seq<SymV>>, sym: SymV) -> (Seq<Seq<SymV>>, bool) {
    if scopes.len() == 0 || scope_has(scopes.last(), sym.name) {
        (scopes, false)
    } else {
        (scopes.update(scopes.len() - 1, scopes.last().push(sym)), true)
    }
}

/// A stack of scopes, innermost last; each scope keeps declaration order.
#[derive(Debug)]
pub struct Scopes {
    scopes: Vec<Vec<Symbol>>,
}

impl Scopes {
    /// There is always at least the global scope.
    #[verifier::type_invariant]
    spec fn inv(self) -> bool {
        self.scopes.len() >= 1
    }
}

impl View for Scopes {
    type V = Seq<Seq<SymV>>;

    closed spec fn view(&self) -> Seq<Seq<SymV>> {
        self.scopes@.map_values(|s: Vec<Symbol>| scope_view(s@))
    }
}

proof fn lemma_find_in_scope(scope: Seq<SymV>, name: Seq<char>)
    ensures
        find_in_scope(scope, name) is Some <==> scope_has(scope, name),
        find_in_scope(scope, name) matches Some(s) ==> s.name == name,
    decreases scope.len(),
{
    if scope.len() > 0 {
        lemma_find_in_scope(scope.drop_last(), name);
        if scope_has(scope, name) && scope.last().name != name {
            let i = choose|i: int| 0 <= i < scope.len() && #[trigger] scope[i].name == name;
            assert(scope.drop_last()[i].name == name);
        }
        if scope_has(scope.drop_last(), name) {
            let i = choose|i: int| 0 <= i < scope.drop_last().len() && #[trigger] scope.drop_last()[i].name == name;
            assert(scope[i].name == name);
        }
    }
}

impl Scopes {
    /// Starts with the global scope pushed.
    pub fn new() -> (s: Scopes)
        ensures
            s@ == seq![Seq::<SymV>::empty()],
    {
        let mut v: Vec<Vec<Symbol>> = Vec::new();
        v.push(Vec::new());
        let s = Scopes { scopes: v };
        assert(s@ =~= seq![Seq::<SymV>::empty()]) by {
            assert(scope_view(Seq::<Symbol>::empty()) =~= Seq::<SymV>::empty());
        }
        s
    }

    /// Pushes a new, empty scope.
    pub fn push(&mut self)
        ensures
            final(self)@ == old(self)@.push(Seq::empty()),
    {
        proof { use_type_invariant(&*self); }
        let mut v: Vec<Vec<Symbol>> = Vec::new();
        v.push(Vec::new());
        std::mem::swap(&mut v, &mut self.scopes);
        v.push(Vec::new());
        self.scopes = v;
        assert(self@ =~= old(self)@.push(Seq::empty())) by {
            assert(scope_view(Seq::<Symbol>::empty()) =~= Seq::<SymV>::empty());
        }
    }

    /// Pops the innermost scope; the global scope is never popped. Returns
    /// the number of scopes left.
    pub fn pop(&mut self) -> (n: usize)
        ensures
            final(self)@ == pop_spec(old(self)@),
            n == final(self)@.len(),
            n >= 1,
    {
        proof { use_type_invariant(&*self); }
        if self.scopes.len() > 1 {
            let mut v: Vec<Vec<Symbol>> = Vec::new();
            v.push(Vec::new());
            std::mem::swap(&mut v, &mut self.scopes);
            v.pop();
            self.scopes = v;
            assert(self@ =~= old(self)@.drop_last());
        }
        self.scopes.len()
    }

    /// Whether the innermost scope declares `name`.
    pub fn declared_here(&self, name: &str) -> (b: bool)
        ensures
            b == (self@.len() > 0 && scope_has(self@.last(), name@)),
    {
        let n = self.scopes.len();
        if n == 0 {
            return false;
        }
        let scope = &self.scopes[n - 1];
        let ghost sv = scope_view(scope@);
        assert(sv == self@.last());
        let mut i: usize = 0;
        while i < scope.len()
            invariant
                i <= scope@.len(),
                sv == scope_view(scope@),
                self@.len() > 0,
                sv == self@.last(),
                forall|k: int| 0 <= k < i ==> sv[k].name != name@,
            decreases scope@.len() - i,
        {
            if str_eq(scope[i].name.as_str(), name) {
                assert(sv[i as int] == scope@[i as int]@);
                assert(sv[i as int].name == name@);
                assert(scope_has(sv, name@));
                return true;
            }
            i = i + 1;
        }
        assert(!scope_has(sv, name@)) by {
            if scope_has(sv, name@) {
                let k = choose|k: int| 0 <= k < sv.len() && #[trigger] sv[k].name == name@;
                assert(sv[k].name != name@);
            }
        }
        false
    }

    /// Declares `symbol` in the innermost scope.
    ///
    /// Returns `false`, changing nothing, when the name is already declared in
    /// the same scope (shadowing an outer scope is allowed).
    pub fn declare(&mut self, symbol: Symbol) -> (ok: bool)
        ensures
            (final(self)@, ok) == declare_spec(old(self)@, symbol@),
            ok == !scope_has(old(self)@.last(), symbol@.name),
    {
        proof { use_type_invariant(&*self); }
        if self.declared_here(symbol.name.as_str()) {
            return false;
        }
        let ghost sym = symbol@;
        let mut v: Vec<Vec<Symbol>> = Vec::new();
        v.push(Vec::new());
        std::mem::swap(&mut v, &mut self.scopes);
        let mut last = v.pop().unwrap();
        let ghost l0 = last@;
        last.push(symbol);
        v.push(last);
        self.scopes = v;
        proof {
            assert(scope_view(last@) =~= scope_view(l0).push(sym));
            assert(self@ =~= old(self)@.update(old(self)@.len() - 1, old(self)@.last().push(sym)));
        }
        true
    }

    /// Looks a name up, innermost scope first.
    pub fn lookup(&self, name: &str) -> (r: Option<&Symbol>)
        ensures
            match r {
                Some(s) => lookup_spec(self@, name@) == Some(s@),
                None => lookup_spec(self@, name@) is None,
            },
    {
        let mut k = self.scopes.len();
        assert(self@.take(k as int) =~= self@);
        while k > 0
            invariant
                k <= self.scopes@.len(),
                lookup_spec(self@, name@) == lookup_spec(self@.take(k as int), name@),
            decreases k,
        {
            let scope = &self.scopes[k - 1];
            let ghost sv = scope_view(scope@);
            proof {
                let t = self@.take(k as int);
                assert(t.last() == sv);
                assert(t.drop_last() =~= self@.take(k - 1));
            }
            let mut j = scope.len();
            assert(sv.take(j as int) =~= sv);
            while j > 0
                invariant
                    j <= scope@.len(),
                    0 < k <= self.scopes@.len(),
                    sv == scope_view(scope@),
                    sv == self@.take(k as int).last(),
                    lookup_spec(self@, name@) == lookup_spec(self@.take(k as int), name@),
                    find_in_scope(sv, name@) == find_in_scope(sv.take(j as int), name@),
                decreases j,
            {
                proof {
                    let t = sv.take(j as int);
                    assert(t.drop_last() =~= sv.take(j - 1));
                    assert(t.last() == scope@[j - 1]@);
                }
                if str_eq(scope[j - 1].name.as_str(), name) {
                    proof {
                        let t = self@.take(k as int);
                        assert(find_in_scope(sv, name@) == Some(scope@[j - 1]@));
                        assert(lookup_spec(t, name@) == Some(scope@[j - 1]@));
                    }
                    return Some(&scope[j - 1]);
                }
                j = j - 1;
            }
            assert(sv.take(0) =~= Seq::<SymV>::empty());
            k = k - 1;
        }
        assert(self@.take(0) =~= Seq::<Seq<SymV>>::empty());
        None
    }

    /// Current nesting depth.
    pub fn depth(&self) -> (n: usize)
        ensures
            n == self@.len(),
            n >= 1,
    {
        proof { use_type_invariant(self); }
        self.scopes.len()
    }
}

// --- Laws -------------------------------------------------------------------------

/// A successful declaration is what a lookup of its name finds next.
pub proof fn law_declare_then_lookup(scopes: Seq<Seq<SymV>>, sym: SymV)
    requires
        declare_spec(scopes, sym).1,
    ensures
        lookup_spec(declare_spec(scopes, sym).0, sym.name) == Some(sym),
{
    let s2 = declare_spec(scopes, sym).0;
    assert(s2.last() == scopes.last().push(sym));
}

/// A name already declared in the innermost scope cannot be declared there
/// again; nothing changes.
pub proof fn law_no_duplicate_in_scope(scopes: Seq<Seq<SymV>>, sym: SymV)
    requires
        scopes.len() > 0,
        scope_has(scopes.last(), sym.name),
    ensures
        declare_spec(scopes, sym) == (scopes, false),
{
}

/// A fresh inner scope accepts a name that an outer scope declares
/// (shadowing), and lookups then find the inner binding.
pub proof fn law_shadowing(scopes: Seq<Seq<SymV>>, sym: SymV)
    ensures
        declare_spec(scopes.push(Seq::empty()), sym).1,
        lookup_spec(declare_spec(scopes.push(Seq::empty()), sym).0, sym.name) == Some(sym),
{
    let s1 = scopes.push(Seq::empty());
    assert(!scope_has(s1.last(), sym.name));
    law_declare_then_lookup(s1, sym);
}

/// Declaring each of `syms` in turn, refusals included.
pub open spec fn declare_all(scopes: Seq<Seq<SymV>>, syms: Seq<SymV>) -> Seq<Seq<SymV>>
    decreases syms.len(),
{
    if syms.len() == 0 {
        scopes
    } else {
        declare_all(declare_spec(scopes, syms[0]).0, syms.drop_first())
    }
}

/// Popping a stack of more than one scope.
pub open spec fn pop_spec(scopes: Seq<Seq<SymV>>) -> Seq<Seq<SymV>> {
    if scopes.len() > 1 { scopes.drop_last() } else { scopes }
}

/// Declarations touch only the innermost scope.
proof fn lemma_declare_all_inner(scopes: Seq<Seq<SymV>>, syms: Seq<SymV>)
    requires
        scopes.len() >= 1,
    ensures
        declare_all(scopes, syms).len() == scopes.len(),
        declare_all(scopes, syms).drop_last() == scopes.drop_last(),
    decreases syms.len(),
{
    if syms.len() > 0 {
        let s1 = declare_spec(scopes, syms[0]).0;
        assert(s1.drop_last() =~= scopes.drop_last());
        lemma_declare_all_inner(s1, syms.drop_first());
    }
}

/// Pushing a scope, making any number of declarations in it and popping it
/// gives back the stack from before the push, so every lookup finds what it
/// found before (inner bindings no longer shadow outer ones).
pub proof fn law_pop_restores(scopes: Seq<Seq<SymV>>, syms: Seq<SymV>, name: Seq<char>)
    requires
        scopes.len() >= 1,
    ensures
        pop_spec(declare_all(scopes.push(Seq::empty()), syms)) == scopes,
        lookup_spec(pop_spec(declare_all(scopes.push(Seq::empty()), syms)), name) == lookup_spec(scopes, name),
{
    let s1 = scopes.push(Seq::empty());
    lemma_declare_all_inner(s1, syms);
    assert(s1.drop_last() =~= scopes);
}

/// Popping never removes the last remaining scope.
pub proof fn law_global_scope_stays(scopes: Seq<Seq<SymV>>)
    requires
        scopes.len() >= 1,
    ensures
        (if scopes.len() > 1 { scopes.drop_last() } else { scopes }).len() >= 1,
{
}

} // verus!
