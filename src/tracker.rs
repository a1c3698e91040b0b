//! Assigns a small, stable integer id to each distinct scope stack.

use vstd::prelude::*;

verus! {

/// A scope stack: the nested syntactic categories active at a position.
pub type Scope = Vec<String>;

/// The value of a scope: its names, in order.
pub open spec fn scope_view(s: Scope) -> Seq<Seq<char>> {
    s@.map_values(|n: String| n@)
}

/// The values of a sequence of scopes.
pub open spec fn scopes_view(v: Seq<Scope>) -> Seq<Seq<Seq<char>>> {
    v.map_values(|s: Scope| scope_view(s))
}

/// Structural equality of two scope stacks.
pub fn scope_eq(a: &Scope, b: &Scope) -> (r: bool)
    ensures
        r == (scope_view(*a) == scope_view(*b)),
{
    if a.len() != b.len() {
        assert(scope_view(*a).len() != scope_view(*b).len());
        return false;
    }
    let mut i: usize = 0;
    while i < a.len()
        invariant
            a@.len() == b@.len(),
            0 <= i <= a@.len(),
            forall|k: int| 0 <= k < i ==> a@[k]@ == b@[k]@,
        decreases a@.len() - i,
    {
        if !(a[i] == b[i]) {
            assert(scope_view(*a)[i as int] != scope_view(*b)[i as int]);
            return false;
        }
        i += 1;
    }
    assert(scope_view(*a) =~= scope_view(*b));
    true
}

/// Outcome of interning a scope.
#[derive(Clone, Copy, Debug, PartialEq, Eq, Structural)]
pub enum LookupResult {
    /// The scope had been seen before and keeps its id.
    Existing(u32),
    /// The scope is seen for the first time and gets the next id.
    New(u32),
}

impl LookupResult {
    /// The id carried by either outcome.
    pub open spec fn id(self) -> u32 {
        match self {
            LookupResult::Existing(id) => id,
            LookupResult::New(id) => id,
        }
    }
}

/// What a lookup of `s` in table `t` does: an existing entry keeps its id and
/// leaves the table alone; a new one is appended with the next id.
pub open spec fn lookup_post(
    t: Seq<Seq<Seq<char>>>,
    s: Seq<Seq<char>>,
    r: LookupResult,
    t2: Seq<Seq<Seq<char>>>,
) -> bool {
    match r {
        LookupResult::Existing(id) => t.contains(s) && id < t.len() && t[id as int] == s && t2 == t,
        LookupResult::New(id) => !t.contains(s) && id == t.len() && t2 == t.push(s),
    }
}

/// The id that interning `s` into table `t` gives.
pub open spec fn intern_id(t: Seq<Seq<Seq<char>>>, s: Seq<Seq<char>>) -> int {
    if t.contains(s) {
        t.index_of(s)
    } else {
        t.len() as int
    }
}

/// The table after interning `s` into `t`.
pub open spec fn interned(t: Seq<Seq<Seq<char>>>, s: Seq<Seq<char>>) -> Seq<Seq<Seq<char>>> {
    if t.contains(s) {
        t
    } else {
        t.push(s)
    }
}

/// In a table without duplicates, the id of an entry is its position.
pub proof fn lemma_intern_id_at(t: Seq<Seq<Seq<char>>>, i: int)
    requires
        t.no_duplicates(),
        0 <= i < t.len(),
    ensures
        intern_id(t, t[i]) == i,
{
    assert(t.contains(t[i]));
    let j = t.index_of(t[i]);
    assert(0 <= j < t.len() && t[j] == t[i]);
}

/// The id that interning gives names the interned scope in the new table.
pub proof fn lemma_intern_id_bound(t: Seq<Seq<Seq<char>>>, s: Seq<Seq<char>>)
    ensures
        0 <= intern_id(t, s) < interned(t, s).len(),
        interned(t, s)[intern_id(t, s)] == s,
        t.len() <= interned(t, s).len() <= t.len() + 1,
        interned(t, s).subrange(0, t.len() as int) == t,
{
    if t.contains(s) {
        let j = t.index_of(s);
        assert(0 <= j < t.len() && t[j] == s);
        assert(t.subrange(0, t.len() as int) =~= t);
    } else {
        assert(t.push(s).subrange(0, t.len() as int) =~= t);
    }
}

/// Interner table: the scope with id `i` is the `i`-th element.
pub struct ScopeTracker {
    elements: Vec<Scope>,
    next_id: u32,
}

impl View for ScopeTracker {
    type V = Seq<Seq<Seq<char>>>;

    closed spec fn view(&self) -> Seq<Seq<Seq<char>>> {
        scopes_view(self.elements@)
    }
}

impl ScopeTracker {
    /// Ids are positions, the next id is the size, and no scope appears twice.
    pub closed spec fn wf(&self) -> bool {
        &&& self.next_id == self.elements@.len()
        &&& self@.no_duplicates()
    }

    /// The table of a well-formed tracker holds each scope at most once and
    /// its size fits an id.
    pub proof fn lemma_wf(&self)
        requires
            self.wf(),
        ensures
            self@.no_duplicates(),
            self@.len() <= u32::MAX,
    {
    }

    /// An empty table.
    pub fn new() -> (r: ScopeTracker)
        ensures
            r.wf(),
            r@ == Seq::<Seq<Seq<char>>>::empty(),
    {
        let r = ScopeTracker { elements: Vec::new(), next_id: 0 };
        assert(r@ =~= Seq::<Seq<Seq<char>>>::empty());
        r
    }

    /// Number of scopes interned so far.
    pub fn len(&self) -> (r: u32)
        requires
            self.wf(),
        ensures
            r == self@.len(),
    {
        self.next_id
    }

    /// Returns the id of `scope`, assigning the next one if it is new.
    pub fn lookup(&mut self, scope: &Scope) -> (r: LookupResult)
        requires
            old(self).wf(),
            old(self)@.contains(scope_view(*scope)) || old(self)@.len() < u32::MAX,
        ensures
            final(self).wf(),
            lookup_post(old(self)@, scope_view(*scope), r, final(self)@),
    {
        let mut i: usize = 0;
        while i < self.elements.len()
            invariant
                self.wf(),
                0 <= i <= self.elements@.len(),
                forall|k: int| 0 <= k < i ==> self@[k] != scope_view(*scope),
            decreases self.elements@.len() - i,
        {
            if scope_eq(&self.elements[i], scope) {
                assert(self@[i as int] == scope_view(*scope));
                return LookupResult::Existing(i as u32);
            }
            i += 1;
        }
        assert(!self@.contains(scope_view(*scope)));
        let old_id = self.next_id;
        self.next_id = self.next_id + 1;
        let ghost before = self@;
        self.elements.push(scope.clone());
        proof {
            assert(!before.contains(scope_view(*scope)));
            assert(self@ =~= before.push(scope_view(*scope)));
            assert forall|a: int, b: int|
                0 <= a < self@.len() && 0 <= b < self@.len() && a != b implies self@[a]
                != self@[b] by {
                if a < before.len() && b < before.len() {
                    assert(before[a] != before[b]);
                }
            }
        }
        LookupResult::New(old_id)
    }
}

impl Default for ScopeTracker {
    fn default() -> (r: ScopeTracker)
        ensures
            r.wf(),
            r@ == Seq::<Seq<Seq<char>>>::empty(),
    {
        ScopeTracker::new()
    }
}

/// Interns `scope` and, the first time it is seen, records it in `new_scopes`
/// so that it is reported once.
pub fn identifier_for_scope(tracker: &mut ScopeTracker, new_scopes: &mut Vec<Scope>, scope: Scope) -> (r: u32)
    requires
        old(tracker).wf(),
        old(tracker)@.contains(scope_view(scope)) || old(tracker)@.len() < u32::MAX,
    ensures
        final(tracker).wf(),
        r == intern_id(old(tracker)@, scope_view(scope)),
        final(tracker)@ == interned(old(tracker)@, scope_view(scope)),
        scopes_view(final(new_scopes)@) == if old(tracker)@.contains(scope_view(scope)) {
            scopes_view(old(new_scopes)@)
        } else {
            scopes_view(old(new_scopes)@).push(scope_view(scope))
        },
{
    let lr = tracker.lookup(&scope);
    match lr {
        LookupResult::Existing(id) => {
            proof {
                old(tracker).lemma_wf();
                lemma_intern_id_at(old(tracker)@, id as int);
            }
            id
        },
        LookupResult::New(id) => {
            let ghost before = new_scopes@;
            new_scopes.push(scope);
            assert(scopes_view(new_scopes@) =~= scopes_view(before).push(scope_view(scope)));
            id
        },
    }
}

} // verus!
