//! The live client registry: a mapping from connection addresses to the
//! identifiers of their writable session handles. The hub is its only
//! mutator; keys are unique for as long as that discipline is kept.

use vstd::prelude::*;

verus! {

/// One registered client: the connection's address and the identifier of
/// its writable session handle.
#[derive(Clone, Copy, PartialEq, Eq, Structural, Debug)]
pub struct Entry {
    pub addr: u64,
    pub handle: u64,
}

/// Mapping from address to session handle with unique keys and no
/// ordering guarantee.
pub struct Registry {
    entries: Vec<Entry>,
}

impl View for Registry {
    type V = Seq<Entry>;

    closed spec fn view(&self) -> Seq<Entry> {
        self.entries@
    }
}

impl Registry {
    /// Keys are never duplicated.
    pub open spec fn wf(self) -> bool {
        forall|i: int, j: int|
            0 <= i < j < self@.len() ==> self@[i].addr != self@[j].addr
    }

    pub open spec fn contains_addr(self, a: u64) -> bool {
        exists|i: int| 0 <= i < self@.len() && self@[i].addr == a
    }

    pub open spec fn index_of(self, a: u64) -> int {
        choose|i: int| 0 <= i < self@.len() && self@[i].addr == a
    }

    /// The handle registered for address `a`; meaningful only when
    /// `contains_addr(a)` holds and the registry is well formed.
    pub open spec fn handle_of(self, a: u64) -> u64 {
        self@[self.index_of(a)].handle
    }

    pub fn new() -> (r: Registry)
        ensures
            r.wf(),
            r@ =~= Seq::<Entry>::empty(),
    {
        Registry { entries: Vec::new() }
    }

    pub fn len(&self) -> (n: usize)
        ensures
            n == self@.len(),
    {
        self.entries.len()
    }

    /// The entry at a position, for walking the registry from outside.
    pub fn entry_at(&self, i: usize) -> (e: Entry)
        requires
            i < self@.len(),
        ensures
            e == self@[i as int],
    {
        self.entries[i]
    }

    fn find(&self, a: u64) -> (r: Option<usize>)
        ensures
            match r {
                Some(i) => i < self@.len() && self@[i as int].addr == a,
                None => !self.contains_addr(a),
            },
    {
        let mut i: usize = 0;
        while i < self.entries.len()
            invariant
                i <= self@.len(),
                forall|j: int| 0 <= j < i ==> self@[j].addr != a,
            decreases self@.len() - i,
        {
            if self.entries[i].addr == a {
                return Some(i);
            }
            i = i + 1;
        }
        None
    }

    pub fn contains(&self, a: u64) -> (r: bool)
        ensures
            r == self.contains_addr(a),
    {
        self.find(a).is_some()
    }

    /// The handle registered for an address, if any.
    pub fn lookup(&self, a: u64) -> (r: Option<u64>)
        requires
            self.wf(),
        ensures
            match r {
                Some(h) => self.contains_addr(a) && h == self.handle_of(a),
                None => !self.contains_addr(a),
            },
    {
        match self.find(a) {
            Some(i) => {
                proof {
                    lemma_unique_index(*self, a, i as int);
                }
                Some(self.entries[i].handle)
            }
            None => None,
        }
    }

    /// Registers `addr` with `handle`. An existing entry for the same
    /// address is replaced — last write wins, the stale handle is
    /// considered already disconnected.
    pub fn insert(&mut self, addr: u64, handle: u64)
        requires
            old(self).wf(),
        ensures
            final(self).wf(),
            final(self).contains_addr(addr),
            final(self).handle_of(addr) == handle,
            forall|b: u64| b != addr ==>
                (final(self).contains_addr(b) <==> old(self).contains_addr(b)),
            forall|b: u64| b != addr && old(self).contains_addr(b) ==>
                final(self).handle_of(b) == old(self).handle_of(b),
            final(self)@.len() == old(self)@.len()
                + (if old(self).contains_addr(addr) { 0int } else { 1int }),
    {
        let found = self.find(addr);
        match found {
            Some(i) => {
                proof {
                    lemma_unique_index(*old(self), addr, i as int);
                }
                self.entries[i] = Entry { addr, handle };
                proof {
                    lemma_update_preserves(*old(self), *self, addr, handle, i as int);
                }
            }
            None => {
                self.entries.push(Entry { addr, handle });
                proof {
                    lemma_push_preserves(*old(self), *self, addr, handle);
                }
            }
        }
    }

    /// Removes the entry for `addr` if present; an absent address is a
    /// no-op, never an error, and leaves the registry untouched.
    pub fn remove(&mut self, addr: u64)
        requires
            old(self).wf(),
        ensures
            final(self).wf(),
            !final(self).contains_addr(addr),
            forall|b: u64| b != addr ==>
                (final(self).contains_addr(b) <==> old(self).contains_addr(b)),
            forall|b: u64| b != addr && old(self).contains_addr(b) ==>
                final(self).handle_of(b) == old(self).handle_of(b),
            final(self)@.len() == old(self)@.len()
                - (if old(self).contains_addr(addr) { 1int } else { 0int }),
            !old(self).contains_addr(addr) ==> final(self)@ == old(self)@,
    {
        let found = self.find(addr);
        match found {
            Some(i) => {
                proof {
                    lemma_unique_index(*old(self), addr, i as int);
                }
                self.entries.remove(i);
                proof {
                    lemma_remove_preserves(*old(self), *self, addr, i as int);
                }
            }
            None => {}
        }
    }
}

impl Registry {
    /// Every entry of a well-formed registry is the one registered for
    /// its address.
    pub proof fn lemma_entry_is_registered(self, i: int)
        requires
            self.wf(),
            0 <= i < self@.len(),
        ensures
            self.contains_addr(self@[i].addr),
            self.handle_of(self@[i].addr) == self@[i].handle,
            self.index_of(self@[i].addr) == i,
    {
        lemma_unique_index(self, self@[i].addr, i);
    }
}

/// In a well-formed registry any index holding `a` is the unique one, so
/// it is the index `index_of(a)` denotes.
proof fn lemma_unique_index(r: Registry, a: u64, i: int)
    requires
        r.wf(),
        0 <= i < r@.len(),
        r@[i].addr == a,
    ensures
        r.contains_addr(a),
        r.index_of(a) == i,
{
    assert(r.contains_addr(a));
    let k = r.index_of(a);
    assert(0 <= k < r@.len() && r@[k].addr == a);
    if k < i {
        assert(r@[k].addr != r@[i].addr);
    } else if i < k {
        assert(r@[i].addr != r@[k].addr);
    }
}

proof fn lemma_update_preserves(pre: Registry, post: Registry, addr: u64, handle: u64, i: int)
    requires
        pre.wf(),
        0 <= i < pre@.len(),
        pre@[i].addr == addr,
        post@ == pre@.update(i, Entry { addr, handle }),
    ensures
        post.wf(),
        post.contains_addr(addr),
        post.handle_of(addr) == handle,
        forall|b: u64| b != addr ==> (post.contains_addr(b) <==> pre.contains_addr(b)),
        forall|b: u64| b != addr && pre.contains_addr(b) ==>
            post.handle_of(b) == pre.handle_of(b),
        post@.len() == pre@.len(),
{
    assert(forall|j: int| 0 <= j < post@.len() && j != i ==> post@[j] == pre@[j]);
    assert(post@[i].addr == addr);
    assert(post.wf());
    lemma_unique_index(post, addr, i);
    assert forall|b: u64| b != addr implies
        (post.contains_addr(b) <==> pre.contains_addr(b)) by {
        if post.contains_addr(b) {
            let j = choose|j: int| 0 <= j < post@.len() && post@[j].addr == b;
            assert(j != i);
            assert(pre@[j].addr == b);
        }
        if pre.contains_addr(b) {
            let j = choose|j: int| 0 <= j < pre@.len() && pre@[j].addr == b;
            assert(j != i);
            assert(post@[j].addr == b);
        }
    }
    assert forall|b: u64| b != addr && pre.contains_addr(b) implies
        post.handle_of(b) == pre.handle_of(b) by {
        let j = choose|j: int| 0 <= j < pre@.len() && pre@[j].addr == b;
        assert(j != i);
        lemma_unique_index(pre, b, j);
        lemma_unique_index(post, b, j);
    }
}

proof fn lemma_push_preserves(pre: Registry, post: Registry, addr: u64, handle: u64)
    requires
        pre.wf(),
        !pre.contains_addr(addr),
        post@ == pre@.push(Entry { addr, handle }),
    ensures
        post.wf(),
        post.contains_addr(addr),
        post.handle_of(addr) == handle,
        forall|b: u64| b != addr ==> (post.contains_addr(b) <==> pre.contains_addr(b)),
        forall|b: u64| b != addr && pre.contains_addr(b) ==>
            post.handle_of(b) == pre.handle_of(b),
        post@.len() == pre@.len() + 1,
{
    let n = pre@.len() as int;
    assert(post@[n].addr == addr);
    assert(forall|j: int| 0 <= j < n ==> post@[j] == pre@[j]);
    assert forall|i: int, j: int| 0 <= i < j < post@.len() implies
        post@[i].addr != post@[j].addr by {
        if j == n {
            assert(pre@[i].addr != addr);
        }
    }
    lemma_unique_index(post, addr, n);
    assert forall|b: u64| b != addr implies
        (post.contains_addr(b) <==> pre.contains_addr(b)) by {
        if post.contains_addr(b) {
            let j = choose|j: int| 0 <= j < post@.len() && post@[j].addr == b;
            assert(j != n);
            assert(pre@[j].addr == b);
        }
        if pre.contains_addr(b) {
            let j = choose|j: int| 0 <= j < pre@.len() && pre@[j].addr == b;
            assert(post@[j].addr == b);
        }
    }
    assert forall|b: u64| b != addr && pre.contains_addr(b) implies
        post.handle_of(b) == pre.handle_of(b) by {
        let j = choose|j: int| 0 <= j < pre@.len() && pre@[j].addr == b;
        lemma_unique_index(pre, b, j);
        lemma_unique_index(post, b, j);
    }
}

proof fn lemma_remove_preserves(pre: Registry, post: Registry, addr: u64, i: int)
    requires
        pre.wf(),
        0 <= i < pre@.len(),
        pre@[i].addr == addr,
        post@ == pre@.remove(i),
    ensures
        post.wf(),
        !post.contains_addr(addr),
        forall|b: u64| b != addr ==> (post.contains_addr(b) <==> pre.contains_addr(b)),
        forall|b: u64| b != addr && pre.contains_addr(b) ==>
            post.handle_of(b) == pre.handle_of(b),
        post@.len() == pre@.len() - 1,
{
    assert(forall|j: int| 0 <= j < i ==> post@[j] == pre@[j]);
    assert(forall|j: int| i <= j < post@.len() ==> post@[j] == pre@[j + 1]);
    assert forall|p: int, q: int| 0 <= p < q < post@.len() implies
        post@[p].addr != post@[q].addr by {
        let p0 = if p < i { p } else { p + 1 };
        let q0 = if q < i { q } else { q + 1 };
        assert(pre@[p0].addr != pre@[q0].addr);
    }
    assert forall|j: int| 0 <= j < post@.len() implies post@[j].addr != addr by {
        let j0 = if j < i { j } else { j + 1 };
        if j0 != i {
            assert(pre@[j0].addr != pre@[i].addr);
        }
    }
    assert forall|b: u64| b != addr implies
        (post.contains_addr(b) <==> pre.contains_addr(b)) by {
        if post.contains_addr(b) {
            let j = choose|j: int| 0 <= j < post@.len() && post@[j].addr == b;
            let j0 = if j < i { j } else { j + 1 };
            assert(pre@[j0].addr == b);
        }
        if pre.contains_addr(b) {
            let j = choose|j: int| 0 <= j < pre@.len() && pre@[j].addr == b;
            assert(j != i);
            if j < i {
                assert(post@[j].addr == b);
            } else {
                assert(post@[j - 1].addr == b);
            }
        }
    }
    assert forall|b: u64| b != addr && pre.contains_addr(b) implies
        post.handle_of(b) == pre.handle_of(b) by {
        let j = choose|j: int| 0 <= j < pre@.len() && pre@[j].addr == b;
        lemma_unique_index(pre, b, j);
        if j < i {
            lemma_unique_index(post, b, j);
        } else {
            lemma_unique_index(post, b, j - 1);
        }
    }
}

} // verus!
