//! The hub: the single serialized consumer of all notifications, sole
//! mutator of the registry, and relay coordinator. Because one consumer
//! drains the channel, no two notifications are processed concurrently,
//! which is what makes registry mutation safe.

use vstd::prelude::*;

use crate::notification::ClientMessage;
use crate::notification::Notification;
use crate::registry::Entry;
use crate::registry::Registry;

verus! {

/// One write the hub owes after processing a message: `payload` goes to
/// the session handle registered for `addr`. A failed write is treated
/// as that recipient's disconnection, never as an abort of the rest of
/// the broadcast.
pub struct RelayAction {
    pub addr: u64,
    pub handle: u64,
    pub payload: Vec<u8>,
}

/// What processing a connection does to the registry: the address is
/// registered with the new handle — replacing a stale entry, last write
/// wins — and nothing else changes.
pub open spec fn connect_effect(pre: Registry, post: Registry, a: u64, h: u64) -> bool {
    &&& post.wf()
    &&& post.contains_addr(a)
    &&& post.handle_of(a) == h
    &&& forall|b: u64| b != a ==> (post.contains_addr(b) <==> pre.contains_addr(b))
    &&& forall|b: u64| b != a && pre.contains_addr(b) ==> post.handle_of(b) == pre.handle_of(b)
    &&& post@.len() == pre@.len() + (if pre.contains_addr(a) {
        0int
    } else {
        1int
    })
}

/// What processing a disconnection does: the address is gone and
/// nothing else changes. An address that was never registered is a
/// no-op — the registry is left exactly as it was.
pub open spec fn disconnect_effect(pre: Registry, post: Registry, a: u64) -> bool {
    &&& post.wf()
    &&& !post.contains_addr(a)
    &&& forall|b: u64| b != a ==> (post.contains_addr(b) <==> pre.contains_addr(b))
    &&& forall|b: u64| b != a && pre.contains_addr(b) ==> post.handle_of(b) == pre.handle_of(b)
    &&& post@.len() == pre@.len() - (if pre.contains_addr(a) {
        1int
    } else {
        0int
    })
    &&& !pre.contains_addr(a) ==> post@ == pre@
}

pub open spec fn is_other(author: u64) -> spec_fn(Entry) -> bool {
    |e: Entry| e.addr != author
}

/// The registry's entries other than the author's, in registry order.
pub open spec fn others_of(entries: Seq<Entry>, author: u64) -> Seq<Entry> {
    entries.filter(is_other(author))
}

/// What a broadcast owes: one action per registered entry other than
/// the author's, in order, each carrying the message's payload to that
/// entry's handle.
pub open spec fn relay_effect(reg: Registry, m: ClientMessage, acts: Seq<RelayAction>) -> bool {
    &&& acts.len() == others_of(reg@, m.author).len()
    &&& forall|k: int|
        0 <= k < acts.len() ==> ((#[trigger] acts[k]).addr == others_of(reg@, m.author)[k].addr
            && acts[k].handle == others_of(reg@, m.author)[k].handle && acts[k].payload@ == m.msg@)
}

/// The entries a filter keeps come from the sequence, and distinct
/// addresses stay distinct through it.
proof fn lemma_others_of(s: Seq<Entry>, author: u64)
    requires
        forall|i: int, j: int| 0 <= i < j < s.len() ==> s[i].addr != s[j].addr,
    ensures
        forall|k: int|
            0 <= k < others_of(s, author).len() ==> s.contains(#[trigger] others_of(s, author)[k]),
        forall|k1: int, k2: int|
            0 <= k1 < k2 < others_of(s, author).len() ==> others_of(s, author)[k1].addr
                != others_of(s, author)[k2].addr,
    decreases s.len(),
{
    if s.len() == 0 {
        assert(others_of(s, author) =~= Seq::<Entry>::empty());
    } else {
        let pre = s.drop_last();
        let last = s.last();
        lemma_others_of(pre, author);
        assert(pre.push(last) =~= s);
        pre.lemma_filter_push(last, is_other(author));
        let f_pre = others_of(pre, author);
        let f = others_of(s, author);
        assert forall|k: int| 0 <= k < f.len() implies s.contains(#[trigger] f[k]) by {
            if k < f_pre.len() {
                assert(pre.contains(f_pre[k]));
                let j = choose|j: int| 0 <= j < pre.len() && pre[j] == f_pre[k];
                assert(s[j] == f[k]);
            } else {
                assert(f[k] == last);
                assert(s[s.len() - 1] == last);
            }
        }
        assert forall|k1: int, k2: int| 0 <= k1 < k2 < f.len() implies f[k1].addr != f[k2].addr by {
            if k2 < f_pre.len() {
            } else if is_other(author)(last) && k2 == f_pre.len() {
                assert(f[k2] == last);
                assert(pre.contains(f_pre[k1]));
                let j = choose|j: int| 0 <= j < pre.len() && pre[j] == f_pre[k1];
                assert(s[j].addr != s[s.len() - 1].addr);
            }
        }
    }
}

/// A broadcast reaches every other currently-registered client exactly
/// once, with the message's own payload and that client's registered
/// handle, and is never echoed back to the author.
pub proof fn lemma_broadcast_complete(reg: Registry, m: ClientMessage, acts: Seq<RelayAction>)
    requires
        reg.wf(),
        relay_effect(reg, m, acts),
    ensures
        forall|k: int|
            0 <= k < acts.len() ==> ((#[trigger] acts[k]).addr != m.author && reg.contains_addr(
                acts[k].addr,
            ) && acts[k].handle == reg.handle_of(acts[k].addr) && acts[k].payload@ == m.msg@),
        forall|b: u64|
            #[trigger] reg.contains_addr(b) && b != m.author ==> exists|k: int|
                0 <= k < acts.len() && (#[trigger] acts[k]).addr == b,
        forall|k1: int, k2: int|
            0 <= k1 < k2 < acts.len() ==> acts[k1].addr != acts[k2].addr,
{
    lemma_others_of(reg@, m.author);
    let f = others_of(reg@, m.author);
    assert forall|k: int| 0 <= k < acts.len() implies ((#[trigger] acts[k]).addr != m.author
        && reg.contains_addr(acts[k].addr) && acts[k].handle == reg.handle_of(acts[k].addr)
        && acts[k].payload@ == m.msg@) by {
        reg@.lemma_filter_pred(is_other(m.author), k);
        assert(reg@.contains(f[k]));
        let j = choose|j: int| 0 <= j < reg@.len() && reg@[j] == f[k];
        reg.lemma_entry_is_registered(j);
    }
    assert forall|b: u64| #[trigger] reg.contains_addr(b) && b != m.author implies exists|k: int|
        0 <= k < acts.len() && (#[trigger] acts[k]).addr == b by {
        let j = choose|j: int| 0 <= j < reg@.len() && reg@[j].addr == b;
        reg@.lemma_filter_contains(is_other(m.author), j);
        assert(f.contains(reg@[j]));
        let k = choose|k: int| 0 <= k < f.len() && f[k] == reg@[j];
        assert(acts[k].addr == b);
    }
}

/// The set of currently registered addresses.
pub open spec fn addr_set(reg: Registry) -> Set<u64> {
    Set::new(|a: u64| reg.contains_addr(a))
}

/// A well-formed registry holds exactly one entry per registered
/// address, so its length is the size of the registered set.
pub proof fn lemma_len_is_addr_set_size(reg: Registry)
    requires
        reg.wf(),
    ensures
        addr_set(reg).finite(),
        addr_set(reg).len() == reg@.len(),
{
    let addrs = reg@.map_values(|e: Entry| e.addr);
    assert(forall|i: int, j: int| 0 <= i < j < addrs.len() ==> addrs[i] != addrs[j]);
    assert(addrs.no_duplicates());
    addrs.unique_seq_to_set();
    assert forall|a: u64| addr_set(reg).contains(a) <==> addrs.to_set().contains(a) by {
        if reg.contains_addr(a) {
            let i = choose|i: int| 0 <= i < reg@.len() && reg@[i].addr == a;
            assert(addrs[i] == a);
            assert(addrs.contains(a));
        }
        if addrs.contains(a) {
            let i = choose|i: int| 0 <= i < addrs.len() && addrs[i] == a;
            assert(reg@[i].addr == a);
        }
    }
    assert(addr_set(reg) =~= addrs.to_set());
}

/// How one processed notification moves the registered set: a
/// connection inserts its address, a disconnection removes it, a
/// message leaves it alone.
pub open spec fn apply_event(prev: Set<u64>, n: Notification) -> Set<u64> {
    match n {
        Notification::ClientConnection(a, _h) => prev.insert(a),
        Notification::ClientDisconnection(a) => prev.remove(a),
        Notification::NewMessage(_m) => prev,
    }
}

/// The registered set after the hub has processed a whole sequence of
/// notifications, in arrival order, starting from `init`.
pub open spec fn reg_set_after(init: Set<u64>, notes: Seq<Notification>) -> Set<u64>
    decreases notes.len(),
{
    if notes.len() == 0 {
        init
    } else {
        apply_event(reg_set_after(init, notes.drop_last()), notes.last())
    }
}

pub open spec fn count_connects(notes: Seq<Notification>) -> int
    decreases notes.len(),
{
    if notes.len() == 0 {
        0int
    } else {
        count_connects(notes.drop_last()) + (if notes.last() is ClientConnection {
            1int
        } else {
            0int
        })
    }
}

pub open spec fn count_disconnects(notes: Seq<Notification>) -> int
    decreases notes.len(),
{
    if notes.len() == 0 {
        0int
    } else {
        count_disconnects(notes.drop_last()) + (if notes.last() is ClientDisconnection {
            1int
        } else {
            0int
        })
    }
}

/// A notification the registered set is ready for: clients connect with
/// fresh addresses and disconnect only while registered.
pub open spec fn event_admissible(prev: Set<u64>, n: Notification) -> bool {
    match n {
        Notification::ClientConnection(a, _h) => !prev.contains(a),
        Notification::ClientDisconnection(a) => prev.contains(a),
        Notification::NewMessage(_m) => true,
    }
}

pub open spec fn admissible_trace(init: Set<u64>, notes: Seq<Notification>) -> bool {
    forall|i: int|
        0 <= i < notes.len() ==> event_admissible(
            reg_set_after(init, notes.take(i)),
            #[trigger] notes[i],
        )
}

/// However many clients connect and disconnect, and in whatever order
/// their events interleave, the size of the registered set equals the
/// connections processed minus the disconnections processed.
pub proof fn lemma_registry_size(init: Set<u64>, notes: Seq<Notification>)
    requires
        init.finite(),
        admissible_trace(init, notes),
    ensures
        reg_set_after(init, notes).finite(),
        reg_set_after(init, notes).len() == init.len() + count_connects(notes) - count_disconnects(
            notes,
        ),
    decreases notes.len(),
{
    if notes.len() == 0 {
    } else {
        let prefix = notes.drop_last();
        assert(admissible_trace(init, prefix)) by {
            assert forall|i: int| 0 <= i < prefix.len() implies event_admissible(
                reg_set_after(init, prefix.take(i)),
                #[trigger] prefix[i],
            ) by {
                assert(prefix.take(i) =~= notes.take(i));
                assert(prefix[i] == notes[i]);
                assert(event_admissible(reg_set_after(init, notes.take(i)), notes[i]));
            }
        }
        lemma_registry_size(init, prefix);
        let prev = reg_set_after(init, prefix);
        assert(notes.take(notes.len() - 1) =~= prefix);
        assert(event_admissible(prev, notes.last()));
        match notes.last() {
            Notification::ClientConnection(a, _h) => {
                assert(!prev.contains(a));
                assert(prev.insert(a).len() == prev.len() + 1);
            }
            Notification::ClientDisconnection(a) => {
                assert(prev.contains(a));
                assert(prev.remove(a).len() == prev.len() - 1);
            }
            Notification::NewMessage(_m) => {}
        }
    }
}

/// What `Hub::process` promises of the registry is exactly one step of
/// `apply_event` on the registered set.
pub proof fn lemma_process_tracks_set(pre: Registry, post: Registry, n: Notification)
    requires
        match n {
            Notification::ClientConnection(a, h) => connect_effect(pre, post, a, h),
            Notification::ClientDisconnection(a) => disconnect_effect(pre, post, a),
            Notification::NewMessage(_m) => post@ == pre@,
        },
    ensures
        addr_set(post) == apply_event(addr_set(pre), n),
{
    match n {
        Notification::ClientConnection(a, _h) => {
            assert(addr_set(post) =~= addr_set(pre).insert(a));
        }
        Notification::ClientDisconnection(a) => {
            assert(addr_set(post) =~= addr_set(pre).remove(a));
        }
        Notification::NewMessage(_m) => {
            assert(addr_set(post) =~= addr_set(pre));
        }
    }
}

/// The single coordinating component: owns the registry, consumes
/// notifications in arrival order, and issues the relay writes. The
/// safety flag only shapes log rendering, never what is relayed.
pub struct Hub {
    registry: Registry,
    safe_mode: bool,
}

impl Hub {
    pub closed spec fn reg(self) -> Registry {
        self.registry
    }

    pub closed spec fn safe(self) -> bool {
        self.safe_mode
    }

    pub open spec fn wf(self) -> bool {
        self.reg().wf()
    }

    pub fn new(safe_mode: bool) -> (h: Hub)
        ensures
            h.wf(),
            h.reg()@ =~= Seq::<Entry>::empty(),
            h.safe() == safe_mode,
    {
        Hub { registry: Registry::new(), safe_mode }
    }

    pub fn registry_len(&self) -> (n: usize)
        ensures
            n == self.reg()@.len(),
    {
        self.registry.len()
    }

    pub fn is_registered(&self, a: u64) -> (r: bool)
        ensures
            r == self.reg().contains_addr(a),
    {
        self.registry.contains(a)
    }

    pub fn handle_for(&self, a: u64) -> (r: Option<u64>)
        requires
            self.wf(),
        ensures
            match r {
                Some(h) => self.reg().contains_addr(a) && h == self.reg().handle_of(a),
                None => !self.reg().contains_addr(a),
            },
    {
        self.registry.lookup(a)
    }

    /// The log line for an event under this hub's safety flag; content
    /// goes through redaction, observability only.
    pub fn log_line(&self, n: &Notification) -> (r: String)
        ensures
            r@ == n.spec_render(self.safe()),
    {
        n.render(self.safe_mode)
    }

    /// Consumes one notification: registers connections, forgets
    /// disconnections (idempotently), and turns a message into the
    /// writes that broadcast it to every other registered session.
    /// Total: no input raises an error.
    pub fn process(&mut self, n: Notification) -> (actions: Vec<RelayAction>)
        requires
            old(self).wf(),
        ensures
            final(self).wf(),
            final(self).safe() == old(self).safe(),
            match n {
                Notification::ClientConnection(a, h) => (connect_effect(
                    old(self).reg(),
                    final(self).reg(),
                    a,
                    h,
                ) && actions@.len() == 0),
                Notification::ClientDisconnection(a) => (disconnect_effect(
                    old(self).reg(),
                    final(self).reg(),
                    a,
                ) && actions@.len() == 0),
                Notification::NewMessage(m) => (final(self).reg()@ == old(self).reg()@
                    && relay_effect(old(self).reg(), m, actions@)),
            },
    {
        match n {
            Notification::ClientConnection(a, h) => {
                self.registry.insert(a, h);
                Vec::new()
            }
            Notification::ClientDisconnection(a) => {
                self.registry.remove(a);
                Vec::new()
            }
            Notification::NewMessage(m) => self.relay(&m),
        }
    }

    /// Builds the broadcast for one message: one write per registered
    /// entry other than the author's, in registry order.
    fn relay(&self, m: &ClientMessage) -> (actions: Vec<RelayAction>)
        requires
            self.wf(),
        ensures
            relay_effect(self.reg(), *m, actions@),
    {
        let mut actions: Vec<RelayAction> = Vec::new();
        let mut i: usize = 0;
        let n = self.registry.len();
        proof {
            assert(self.reg()@.take(0) =~= Seq::<Entry>::empty());
            assert(others_of(self.reg()@.take(0), m.author) =~= Seq::<Entry>::empty());
        }
        while i < n
            invariant
                self.wf(),
                n == self.reg()@.len(),
                i <= n,
                actions@.len() == others_of(self.reg()@.take(i as int), m.author).len(),
                forall|k: int|
                    0 <= k < actions@.len() ==> ((#[trigger] actions@[k]).addr == others_of(
                        self.reg()@.take(i as int),
                        m.author,
                    )[k].addr && actions@[k].handle == others_of(
                        self.reg()@.take(i as int),
                        m.author,
                    )[k].handle && actions@[k].payload@ == m.msg@),
            decreases n - i,
        {
            let e = self.registry.entry_at(i);
            proof {
                let pre = self.reg()@.take(i as int);
                assert(pre.push(self.reg()@[i as int]) =~= self.reg()@.take(i as int + 1));
                pre.lemma_filter_push(self.reg()@[i as int], is_other(m.author));
            }
            if e.addr != m.author {
                let payload = crate::session::copy_bytes(&m.msg);
                actions.push(RelayAction { addr: e.addr, handle: e.handle, payload });
            }
            i = i + 1;
        }
        proof {
            assert(self.reg()@.take(n as int) =~= self.reg()@);
        }
        actions
    }
}

} // verus!
