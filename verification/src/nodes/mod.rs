//! The list of nodes a worker can hand work to.
//!
//! The list answers two questions quickly: which node has been idle the
//! longest, and whether a node is known at all. It keeps two tables: a pool
//! of `(time, address)` records ordered by time, from which the least
//! recently used node is taken, and a table of the nodes currently in the
//! list with their metadata. Removing a node only touches the table; records
//! of nodes that are no longer in the table, or that are older than the
//! node's current entry, are discarded when they reach the front of the pool.
//!
//! Times are monotonic clock readings (for instance nanoseconds since the
//! process started) that the caller passes in.
use vstd::prelude::*;

use crate::assoc::{assoc_map, has_key, lemma_assoc_empty, lemma_assoc_index, lemma_assoc_len, lemma_assoc_push, lemma_assoc_remove, lemma_assoc_update, unique_keys};
use crate::text::{chars_le, lemma_chars_le_antisymmetric, lemma_chars_le_total, lemma_chars_le_transitive, str_le};

pub mod checkout;

verus! {

/// A node address: host and port.
pub type NodeAddress = (String, u16);

/// A record of the pool: the time a node was put back, and the node.
pub type NodeRecord = (u64, NodeAddress);

/// A node address as a mathematical value.
pub type AddressView = (Seq<char>, u16);

/// A node address as a mathematical value.
pub open spec fn address_view(a: NodeAddress) -> AddressView {
    (a.0@, a.1)
}

/// The order of `(String, u16)` addresses: by host, then by port.
pub open spec fn address_le(a: AddressView, b: AddressView) -> bool {
    if a.0 == b.0 {
        a.1 <= b.1
    } else {
        chars_le(a.0, b.0)
    }
}

/// The order in which the pool hands out records: oldest time first, and
/// among equal times the smaller address first.
pub open spec fn record_le(r: (u64, AddressView), q: (u64, AddressView)) -> bool {
    r.0 < q.0 || (r.0 == q.0 && address_le(r.1, q.1))
}

/// Any two records are ordered one way or the other.
pub proof fn lemma_record_le_total(r: (u64, AddressView), q: (u64, AddressView))
    ensures
        record_le(r, q) || record_le(q, r),
{
    lemma_chars_le_total(r.1.0, q.1.0);
}

/// The order of records is transitive.
pub proof fn lemma_record_le_transitive(
    r: (u64, AddressView),
    q: (u64, AddressView),
    p: (u64, AddressView),
)
    requires
        record_le(r, q),
        record_le(q, p),
    ensures
        record_le(r, p),
{
    if r.0 == q.0 && q.0 == p.0 {
        if r.1.0 != q.1.0 && q.1.0 != p.1.0 {
            lemma_chars_le_transitive(r.1.0, q.1.0, p.1.0);
            if r.1.0 == p.1.0 {
                lemma_chars_le_antisymmetric(r.1.0, q.1.0);
            }
        }
    }
}

/// Metadata kept for a node in the list.
#[derive(Clone, Copy, Debug)]
pub struct NodeMetadata {
    last_used: u64,
}

impl NodeMetadata {
    /// The last time the node was used.
    pub closed spec fn spec_last_used(self) -> u64 {
        self.last_used
    }

    /// Metadata for a node used at `now`.
    pub fn new(now: u64) -> (m: Self)
        ensures
            m.spec_last_used() == now,
    {
        NodeMetadata { last_used: now }
    }

    /// Metadata with the given last use.
    pub fn with_last_used(last_used: u64) -> (m: Self)
        ensures
            m.spec_last_used() == last_used,
    {
        NodeMetadata { last_used }
    }

    /// The last time the node was used.
    pub fn last_used(&self) -> (t: u64)
        ensures
            t == self.spec_last_used(),
    {
        self.last_used
    }

    /// Records that the node was used at `now`.
    pub fn update_last_used(&mut self, now: u64)
        ensures
            final(self).spec_last_used() == now,
    {
        self.update_last_used_to(now);
    }

    /// Sets the last use of the node.
    pub fn update_last_used_to(&mut self, last_used: u64)
        ensures
            final(self).spec_last_used() == last_used,
    {
        self.last_used = last_used;
    }
}

/// Whether two addresses are equal.
pub fn address_eq(a: &NodeAddress, b: &NodeAddress) -> (r: bool)
    ensures
        r == (address_view(*a) == address_view(*b)),
{
    a.1 == b.1 && a.0 == b.0
}

/// A copy of an address.
pub fn clone_address(a: &NodeAddress) -> (r: NodeAddress)
    ensures
        r == *a,
{
    (a.0.clone(), a.1)
}

fn address_le_exec(a: &NodeAddress, b: &NodeAddress) -> (r: bool)
    ensures
        r == address_le(address_view(*a), address_view(*b)),
{
    if a.0 == b.0 {
        a.1 <= b.1
    } else {
        str_le(a.0.as_str(), b.0.as_str())
    }
}

fn record_le_exec(r: &NodeRecord, q: &NodeRecord) -> (b: bool)
    ensures
        b == record_le((r.0, address_view(r.1)), (q.0, address_view(q.1))),
{
    r.0 < q.0 || (r.0 == q.0 && address_le_exec(&r.1, &q.1))
}

/// A record of the pool as a mathematical value.
pub open spec fn record_view(r: NodeRecord) -> (u64, AddressView) {
    (r.0, address_view(r.1))
}

/// A node of the table with its last use.
pub open spec fn entry_view(e: (NodeAddress, NodeMetadata)) -> (AddressView, u64) {
    (address_view(e.0), e.1.spec_last_used())
}

proof fn lemma_remove_keeps<A>(s: Seq<A>, m: int, x: A)
    requires
        0 <= m < s.len(),
        s.contains(x),
        x != s[m],
    ensures
        s.remove(m).contains(x),
{
    let j = choose|j: int| 0 <= j < s.len() && s[j] == x;
    if j < m {
        assert(s.remove(m)[j] == x);
    } else {
        assert(s.remove(m)[j - 1] == x);
    }
}

/// The list of nodes.
#[derive(Debug)]
pub struct NodeList {
    heap: Vec<NodeRecord>,
    set: Vec<(NodeAddress, NodeMetadata)>,
    clock: u64,
}

impl NodeList {
    /// The records of the pool, in storage order.
    pub closed spec fn records(self) -> Seq<(u64, AddressView)> {
        self.heap@.map_values(|r: NodeRecord| record_view(r))
    }

    /// The nodes of the table with their last use, in storage order.
    pub closed spec fn entries(self) -> Seq<(AddressView, u64)> {
        self.set@.map_values(|e: (NodeAddress, NodeMetadata)| entry_view(e))
    }

    /// The nodes in the list, each with the last time it was used.
    pub open spec fn nodes(self) -> Map<AddressView, u64> {
        assoc_map(self.entries())
    }

    /// The latest time the list has been given.
    pub closed spec fn spec_clock(self) -> u64 {
        self.clock
    }

    /// The list is well formed: each node occurs once in the table, each node
    /// of the table has a record of its last use in the pool, no record of a
    /// node is newer than the node's entry, and no time is later than the clock.
    pub open spec fn wf(self) -> bool {
        &&& unique_keys(self.entries())
        &&& forall|i: int|
            0 <= i < self.entries().len() ==> self.records().contains(
                (#[trigger] self.entries()[i].1, self.entries()[i].0),
            )
        &&& forall|j: int|
            0 <= j < self.records().len() && self.nodes().contains_key(
                #[trigger] self.records()[j].1,
            ) ==> self.records()[j].0 <= self.nodes()[self.records()[j].1]
        &&& forall|j: int| 0 <= j < self.records().len() ==> #[trigger] self.records()[j].0 <= self.spec_clock()
    }

    /// An empty list.
    pub fn new() -> (l: Self)
        ensures
            l.wf(),
            l.nodes() == Map::<AddressView, u64>::empty(),
            l.records() == Seq::<(u64, AddressView)>::empty(),
            l.spec_clock() == 0,
    {
        let l = NodeList { heap: Vec::new(), set: Vec::new(), clock: 0 };
        proof {
            assert(l.entries() =~= Seq::<(AddressView, u64)>::empty());
            assert(l.records() =~= Seq::<(u64, AddressView)>::empty());
            lemma_assoc_empty(l.entries());
        }
        l
    }

    /// The latest time the list has been given.
    pub fn clock(&self) -> (t: u64)
        ensures
            t == self.spec_clock(),
    {
        self.clock
    }

    fn find(&self, node: &NodeAddress) -> (r: Option<usize>)
        requires
            unique_keys(self.entries()),
        ensures
            r is None ==> !self.nodes().contains_key(address_view(*node)),
            r matches Some(i) ==> i < self.set.len() && address_view(self.set@[i as int].0)
                == address_view(*node) && self.nodes().contains_key(address_view(*node))
                && self.nodes()[address_view(*node)] == self.set@[i as int].1.spec_last_used(),
    {
        let mut i: usize = 0;
        while i < self.set.len()
            invariant
                0 <= i <= self.set.len(),
                unique_keys(self.entries()),
                forall|j: int| 0 <= j < i ==> self.entries()[j].0 != address_view(*node),
            decreases self.set.len() - i,
        {
            if address_eq(&self.set[i].0, node) {
                proof {
                    assert(self.entries()[i as int] == entry_view(self.set@[i as int]));
                    lemma_assoc_index(self.entries(), i as int);
                }
                return Some(i);
            }
            assert(self.entries()[i as int] == entry_view(self.set@[i as int]));
            i = i + 1;
        }
        proof {
            if has_key(self.entries(), address_view(*node)) {
                let j = choose|j: int|
                    0 <= j < self.entries().len() && #[trigger] self.entries()[j].0 == address_view(
                        *node,
                    );
                assert(self.entries()[j].0 != address_view(*node));
            }
        }
        None
    }

    /// Whether the node is in the list.
    pub fn contains(&self, node: &NodeAddress) -> (r: bool)
        requires
            self.wf(),
        ensures
            r == self.nodes().contains_key(address_view(*node)),
    {
        self.find(node).is_some()
    }

    /// The number of nodes in the list.
    pub fn len(&self) -> (n: usize)
        requires
            self.wf(),
        ensures
            n == self.nodes().len(),
    {
        proof {
            lemma_assoc_len(self.entries());
        }
        self.set.len()
    }

    /// Whether the list holds no node.
    pub fn is_empty(&self) -> (r: bool)
        requires
            self.wf(),
        ensures
            r == (self.nodes().len() == 0),
            r == (self.nodes() == Map::<AddressView, u64>::empty()),
    {
        proof {
            lemma_assoc_len(self.entries());
            if self.set.len() == 0 {
                lemma_assoc_empty(self.entries());
            } else {
                lemma_assoc_index(self.entries(), 0);
                assert(!self.nodes().dom().is_empty() || !self.nodes().contains_key(self.entries()[0].0));
            }
        }
        self.set.len() == 0
    }

    /// The last time the node was used, if it is in the list.
    pub fn last_used(&self, node: &NodeAddress) -> (r: Option<u64>)
        requires
            self.wf(),
        ensures
            r == (if self.nodes().contains_key(address_view(*node)) {
                Some(self.nodes()[address_view(*node)])
            } else {
                None
            }),
    {
        match self.find(node) {
            Some(i) => Some(self.set[i].1.last_used()),
            None => None,
        }
    }

    fn min_record_index(&self) -> (m: usize)
        requires
            self.heap.len() > 0,
        ensures
            m < self.heap.len(),
            forall|j: int|
                0 <= j < self.records().len() ==> record_le(
                    self.records()[m as int],
                    #[trigger] self.records()[j],
                ),
    {
        let mut m: usize = 0;
        let mut i: usize = 1;
        while i < self.heap.len()
            invariant
                0 < i <= self.heap.len(),
                m < i,
                forall|j: int|
                    0 <= j < i ==> record_le(self.records()[m as int], #[trigger] self.records()[j]),
            decreases self.heap.len() - i,
        {
            if record_le_exec(&self.heap[i], &self.heap[m]) {
                proof {
                    assert forall|j: int| 0 <= j < i + 1 implies record_le(
                        self.records()[i as int],
                        #[trigger] self.records()[j],
                    ) by {
                        if j < i {
                            lemma_record_le_transitive(
                                self.records()[i as int],
                                self.records()[m as int],
                                self.records()[j],
                            );
                        }
                    }
                }
                m = i;
            } else {
                proof {
                    lemma_record_le_total(self.records()[i as int], self.records()[m as int]);
                }
            }
            i = i + 1;
        }
        m
    }

    /// The time of the oldest record of the pool, if there is any. The record
    /// may belong to a node that has since left the list or been used again.
    pub fn last_used_for_next(&self) -> (r: Option<u64>)
        ensures
            r is None <==> self.records().len() == 0,
            r matches Some(t) ==> (exists|j: int|
                0 <= j < self.records().len() && #[trigger] self.records()[j].0 == t) && (forall|j: int|
                0 <= j < self.records().len() ==> t <= #[trigger] self.records()[j].0),
    {
        if self.heap.len() == 0 {
            None
        } else {
            let m = self.min_record_index();
            proof {
                assert(self.records()[m as int].0 == self.heap@[m as int].0);
            }
            Some(self.heap[m].0)
        }
    }

    /// No record of the node `a` in the pool is later than `t`. This holds
    /// of every node when `t` is not earlier than the clock, as with a
    /// monotonic clock; a node may only be put in at such a time, as a record
    /// later than its entry would stand for it.
    pub open spec fn no_record_after(self, a: AddressView, t: u64) -> bool {
        forall|j: int| 0 <= j < self.records().len() && #[trigger] self.records()[j].1 == a ==> self.records()[j].0 <= t
    }

    /// Puts the node into the list at `now`, unless it is already there.
    /// Returns whether it was put in.
    pub fn insert(&mut self, node: NodeAddress, now: u64) -> (r: bool)
        requires
            old(self).wf(),
            !old(self).nodes().contains_key(address_view(node)) ==> old(self).no_record_after(
                address_view(node),
                now,
            ),
        ensures
            final(self).wf(),
            r == !old(self).nodes().contains_key(address_view(node)),
            r ==> final(self).nodes() == old(self).nodes().insert(address_view(node), now),
            r ==> final(self).records() == old(self).records().push((now, address_view(node))),
            r ==> final(self).spec_clock() == if now >= old(self).spec_clock() {
                now
            } else {
                old(self).spec_clock()
            },
            !r ==> *final(self) == *old(self),
    {
        if self.contains(&node) {
            false
        } else {
            let meta = NodeMetadata::with_last_used(now);
            self.insert_node(node, meta, now)
        }
    }

    /// Puts the node into the list at `now`, whether or not it is already
    /// there; its metadata is kept, with its last use set to `now`.
    /// Returns whether the node was not in the list before.
    pub fn insert_node(&mut self, node: NodeAddress, metadata: NodeMetadata, now: u64) -> (r: bool)
        requires
            old(self).wf(),
            old(self).no_record_after(address_view(node), now),
        ensures
            final(self).wf(),
            r == !old(self).nodes().contains_key(address_view(node)),
            final(self).nodes() == old(self).nodes().insert(address_view(node), now),
            final(self).records() == old(self).records().push((now, address_view(node))),
            final(self).spec_clock() == if now >= old(self).spec_clock() {
                now
            } else {
                old(self).spec_clock()
            },
    {
        let mut metadata = metadata;
        metadata.update_last_used_to(now);
        let ghost old_entries = self.entries();
        let ghost old_records = self.records();
        let ghost old_clock = self.spec_clock();
        let ghost v = address_view(node);
        let found = self.find(&node);
        let record_node = clone_address(&node);
        self.heap.push((now, record_node));
        if now >= self.clock {
            self.clock = now;
        }
        proof {
            assert(self.records() =~= old_records.push((now, v)));
        }
        match found {
            Some(i) => {
                let key = clone_address(&self.set[i].0);
                self.set.set(i, (key, metadata));
                proof {
                    assert(self.entries() =~= old_entries.update(i as int, (old_entries[i as int].0, now)));
                    lemma_assoc_update(old_entries, i as int, now);
                    self.prove_wf_after_push(old_entries, old_records, v, now, old_clock);
                }
                false
            },
            None => {
                self.set.push((node, metadata));
                proof {
                    assert(self.entries() =~= old_entries.push((v, now)));
                    lemma_assoc_push(old_entries, v, now);
                    self.prove_wf_after_push(old_entries, old_records, v, now, old_clock);
                }
                true
            },
        }
    }

    proof fn prove_wf_after_push(
        &self,
        old_entries: Seq<(AddressView, u64)>,
        old_records: Seq<(u64, AddressView)>,
        v: AddressView,
        now: u64,
        old_clock: u64,
    )
        requires
            unique_keys(old_entries),
            forall|i: int|
                0 <= i < old_entries.len() ==> old_records.contains(
                    (#[trigger] old_entries[i].1, old_entries[i].0),
                ),
            forall|j: int|
                0 <= j < old_records.len() && assoc_map(old_entries).contains_key(
                    #[trigger] old_records[j].1,
                ) ==> old_records[j].0 <= assoc_map(old_entries)[old_records[j].1],
            forall|j: int| 0 <= j < old_records.len() ==> #[trigger] old_records[j].0 <= old_clock,
            forall|j: int| 0 <= j < old_records.len() && #[trigger] old_records[j].1 == v ==> old_records[j].0 <= now,
            unique_keys(self.entries()),
            self.nodes() == assoc_map(old_entries).insert(v, now),
            self.records() == old_records.push((now, v)),
            self.spec_clock() == if now >= old_clock {
                now
            } else {
                old_clock
            },
        ensures
            self.wf(),
    {
        assert forall|i: int| 0 <= i < self.entries().len() implies self.records().contains(
            (#[trigger] self.entries()[i].1, self.entries()[i].0),
        ) by {
            let e = self.entries()[i];
            lemma_assoc_index(self.entries(), i);
            if e.0 == v {
                assert(self.records()[old_records.len() as int] == (now, v));
            } else {
                assert(assoc_map(old_entries).contains_key(e.0));
                let k = choose|k: int| 0 <= k < old_entries.len() && #[trigger] old_entries[k].0 == e.0;
                lemma_assoc_index(old_entries, k);
                assert(old_records.contains((old_entries[k].1, old_entries[k].0)));
                let j = choose|j: int|
                    0 <= j < old_records.len() && old_records[j] == (old_entries[k].1, old_entries[k].0);
                assert(self.records()[j] == old_records[j]);
            }
        }
        assert forall|j: int|
            0 <= j < self.records().len() && self.nodes().contains_key(
                #[trigger] self.records()[j].1,
            ) implies self.records()[j].0 <= self.nodes()[self.records()[j].1] by {
            if j < old_records.len() {
                assert(self.records()[j] == old_records[j]);
                if self.records()[j].1 != v {
                    assert(assoc_map(old_entries).contains_key(old_records[j].1));
                } else {
                    assert(old_records[j].1 == v);
                }
            }
        }
        assert forall|j: int| 0 <= j < self.records().len() implies #[trigger] self.records()[j].0
            <= self.spec_clock() by {
            if j < old_records.len() {
                assert(self.records()[j] == old_records[j]);
            }
        }
    }

    /// Takes the node out of the list, if it is there. Its records stay in
    /// the pool and are discarded when they come up.
    pub fn remove(&mut self, node: &NodeAddress)
        requires
            old(self).wf(),
        ensures
            final(self).wf(),
            final(self).nodes() == old(self).nodes().remove(address_view(*node)),
            final(self).records() == old(self).records(),
            final(self).spec_clock() == old(self).spec_clock(),
    {
        match self.find(node) {
            Some(i) => {
                let _ = self.remove_entry(i);
            },
            None => {
                proof {
                    assert(self.nodes() =~= self.nodes().remove(address_view(*node)));
                }
            },
        }
    }

    fn remove_entry(&mut self, i: usize) -> (e: (NodeAddress, NodeMetadata))
        requires
            old(self).wf(),
            i < old(self).set.len(),
        ensures
            final(self).wf(),
            e == old(self).set@[i as int],
            old(self).nodes().contains_key(address_view(e.0)),
            old(self).nodes()[address_view(e.0)] == e.1.spec_last_used(),
            final(self).nodes() == old(self).nodes().remove(address_view(e.0)),
            final(self).records() == old(self).records(),
            final(self).spec_clock() == old(self).spec_clock(),
    {
        let ghost old_entries = self.entries();
        proof {
            lemma_assoc_index(old_entries, i as int);
            lemma_assoc_remove(old_entries, i as int);
        }
        let e = self.set.remove(i);
        proof {
            assert(self.entries() =~= old_entries.remove(i as int));
            assert forall|k: int| 0 <= k < self.entries().len() implies self.records().contains(
                (#[trigger] self.entries()[k].1, self.entries()[k].0),
            ) by {
                let k2 = if k < i { k } else { k + 1 };
                assert(self.entries()[k] == old_entries[k2]);
            }
        }
        e
    }

    /// Takes the least recently used node out of the list, with its metadata.
    ///
    /// Records of the pool that no longer stand for a node of the list are
    /// discarded on the way.
    pub fn next_with_metadata(&mut self) -> (r: Option<(NodeMetadata, NodeAddress)>)
        requires
            old(self).wf(),
        ensures
            final(self).wf(),
            final(self).spec_clock() == old(self).spec_clock(),
            final(self).records().len() <= old(self).records().len(),
            r is None ==> old(self).nodes() == Map::<AddressView, u64>::empty() && final(self).nodes()
                == old(self).nodes(),
            r matches Some((m, a)) ==> {
                &&& old(self).nodes().contains_key(address_view(a))
                &&& m.spec_last_used() == old(self).nodes()[address_view(a)]
                &&& final(self).nodes() == old(self).nodes().remove(address_view(a))
                &&& forall|b: AddressView| #[trigger]
                    old(self).nodes().contains_key(b) ==> record_le(
                        (m.spec_last_used(), address_view(a)),
                        (old(self).nodes()[b], b),
                    )
            },
    {
        let ghost old_nodes = self.nodes();
        let ghost old_len = self.records().len();
        while self.heap.len() > 0
            invariant
                self.wf(),
                self.nodes() == old_nodes,
                old_nodes == old(self).nodes(),
                old_len == old(self).records().len(),
                self.spec_clock() == old(self).spec_clock(),
                self.records().len() <= old_len,
            decreases self.heap.len(),
        {
            let m = self.min_record_index();
            let ghost recs = self.records();
            let ghost top = recs[m as int];
            let time = self.heap[m].0;
            let address = clone_address(&self.heap[m].1);
            proof {
                assert(top == record_view(self.heap@[m as int]));
            }
            match self.find(&address) {
                Some(i) => {
                    if time >= self.set[i].1.last_used() {
                        let ghost before = self.nodes();
                        proof {
                            // Every node of the list has a record no older than the one taken.
                            assert forall|b: AddressView| #[trigger] before.contains_key(b) implies record_le(
                                top,
                                (before[b], b),
                            ) by {
                                let k = choose|k: int|
                                    0 <= k < self.entries().len() && #[trigger] self.entries()[k].0 == b;
                                lemma_assoc_index(self.entries(), k);
                                assert(recs.contains((self.entries()[k].1, self.entries()[k].0)));
                            }
                            assert(before.contains_key(recs[m as int].1));
                            assert(recs[m as int].0 <= before[recs[m as int].1]);
                            assert(time == before[address_view(address)]);
                        }
                        let entry = self.remove_entry(i);
                        let _ = self.heap.remove(m);
                        proof {
                            assert(self.records() =~= recs.remove(m as int));
                            self.prove_wf_after_discard(recs, m as int);
                            assert(self.records().len() == recs.len() - 1);
                            assert(entry.1.spec_last_used() == time);
                        }
                        return Some((entry.1, address));
                    } else {
                        let _ = self.heap.remove(m);
                        proof {
                            assert(self.records() =~= recs.remove(m as int));
                            self.prove_wf_after_discard(recs, m as int);
                        }
                    }
                },
                None => {
                    let _ = self.heap.remove(m);
                    proof {
                        assert(self.records() =~= recs.remove(m as int));
                        self.prove_wf_after_discard(recs, m as int);
                    }
                },
            }
        }
        proof {
            if self.set.len() > 0 {
                assert(self.records().contains((self.entries()[0].1, self.entries()[0].0)));
            }
            assert(self.entries() =~= Seq::<(AddressView, u64)>::empty());
            lemma_assoc_empty(self.entries());
        }
        None
    }

    proof fn prove_wf_after_discard(&self, recs: Seq<(u64, AddressView)>, m: int)
        requires
            0 <= m < recs.len(),
            self.records() == recs.remove(m),
            unique_keys(self.entries()),
            forall|i: int|
                0 <= i < self.entries().len() ==> recs.contains(
                    (#[trigger] self.entries()[i].1, self.entries()[i].0),
                ),
            forall|j: int|
                0 <= j < recs.len() && self.nodes().contains_key(#[trigger] recs[j].1) ==> recs[j].0
                    <= self.nodes()[recs[j].1],
            forall|j: int| 0 <= j < recs.len() ==> #[trigger] recs[j].0 <= self.spec_clock(),
            !self.nodes().contains_key(recs[m].1) || recs[m].0 < self.nodes()[recs[m].1],
        ensures
            self.wf(),
    {
        assert forall|i: int| 0 <= i < self.entries().len() implies self.records().contains(
            (#[trigger] self.entries()[i].1, self.entries()[i].0),
        ) by {
            let e = self.entries()[i];
            lemma_assoc_index(self.entries(), i);
            lemma_remove_keeps(recs, m, (e.1, e.0));
        }
        assert forall|j: int|
            0 <= j < self.records().len() && self.nodes().contains_key(
                #[trigger] self.records()[j].1,
            ) implies self.records()[j].0 <= self.nodes()[self.records()[j].1] by {
            let j2 = if j < m { j } else { j + 1 };
            assert(self.records()[j] == recs[j2]);
        }
        assert forall|j: int| 0 <= j < self.records().len() implies #[trigger] self.records()[j].0
            <= self.spec_clock() by {
            let j2 = if j < m { j } else { j + 1 };
            assert(self.records()[j] == recs[j2]);
        }
    }

    /// Takes the least recently used node out of the list.
    pub fn next(&mut self) -> (r: Option<NodeAddress>)
        requires
            old(self).wf(),
        ensures
            final(self).wf(),
            final(self).spec_clock() == old(self).spec_clock(),
            r is None ==> old(self).nodes() == Map::<AddressView, u64>::empty() && final(self).nodes()
                == old(self).nodes(),
            r matches Some(a) ==> {
                &&& old(self).nodes().contains_key(address_view(a))
                &&& final(self).nodes() == old(self).nodes().remove(address_view(a))
                &&& forall|b: AddressView| #[trigger]
                    old(self).nodes().contains_key(b) ==> record_le(
                        (old(self).nodes()[address_view(a)], address_view(a)),
                        (old(self).nodes()[b], b),
                    )
            },
    {
        match self.next_with_metadata() {
            Some((_, node)) => Some(node),
            None => None,
        }
    }

    /// Takes the node at position `index % len` of the table out of the list,
    /// with its metadata; `None` when the list is empty.
    pub fn take_nth(&mut self, index: usize) -> (r: Option<(NodeMetadata, NodeAddress)>)
        requires
            old(self).wf(),
        ensures
            final(self).wf(),
            final(self).records() == old(self).records(),
            final(self).spec_clock() == old(self).spec_clock(),
            r is None <==> old(self).entries().len() == 0,
            r is None ==> final(self).nodes() == old(self).nodes(),
            r matches Some((m, a)) ==> {
                &&& (address_view(a), m.spec_last_used()) == old(self).entries()[(index as int) % (old(self).entries().len() as int)]
                &&& old(self).nodes().contains_key(address_view(a))
                &&& m.spec_last_used() == old(self).nodes()[address_view(a)]
                &&& final(self).nodes() == old(self).nodes().remove(address_view(a))
            },
    {
        if self.set.len() == 0 {
            return None;
        }
        let i = index % self.set.len();
        let ghost entries = self.entries();
        let entry = self.remove_entry(i);
        proof {
            assert(entries[i as int] == entry_view(entry));
        }
        Some((entry.1, entry.0))
    }

    /// Takes a node picked at random out of the list, with its metadata.
    pub fn random_with_metadata(&mut self) -> (r: Option<(NodeMetadata, NodeAddress)>)
        requires
            old(self).wf(),
        ensures
            final(self).wf(),
            final(self).spec_clock() == old(self).spec_clock(),
            final(self).records() == old(self).records(),
            r is None <==> old(self).nodes() == Map::<AddressView, u64>::empty(),
            r is None ==> final(self).nodes() == old(self).nodes(),
            r matches Some((m, a)) ==> {
                &&& old(self).nodes().contains_key(address_view(a))
                &&& m.spec_last_used() == old(self).nodes()[address_view(a)]
                &&& final(self).nodes() == old(self).nodes().remove(address_view(a))
            },
    {
        proof {
            if self.set.len() > 0 {
                lemma_assoc_index(self.entries(), 0);
            } else {
                lemma_assoc_empty(self.entries());
            }
        }
        let index = crate::token::random_usize();
        self.take_nth(index)
    }

    /// Takes a node picked at random out of the list.
    pub fn random(&mut self) -> (r: Option<NodeAddress>)
        requires
            old(self).wf(),
        ensures
            final(self).wf(),
            final(self).spec_clock() == old(self).spec_clock(),
            r is None <==> old(self).nodes() == Map::<AddressView, u64>::empty(),
            r matches Some(a) ==> {
                &&& old(self).nodes().contains_key(address_view(a))
                &&& final(self).nodes() == old(self).nodes().remove(address_view(a))
            },
    {
        match self.random_with_metadata() {
            Some((_, node)) => Some(node),
            None => None,
        }
    }

    /// A list holding the given nodes, all last used at `now`.
    pub fn from_vec(nodes: Vec<NodeAddress>, now: u64) -> (l: Self)
        ensures
            l.wf(),
            l.spec_clock() == now,
            l.records() == nodes@.map_values(|a: NodeAddress| (now, address_view(a))),
            forall|a: AddressView| #[trigger]
                l.nodes().contains_key(a) <==> nodes@.map_values(|n: NodeAddress| address_view(n)).contains(a),
            forall|a: AddressView| #[trigger] l.nodes().contains_key(a) ==> l.nodes()[a] == now,
    {
        let mut l = NodeList::new();
        l.clock = now;
        let mut i: usize = 0;
        while i < nodes.len()
            invariant
                0 <= i <= nodes.len(),
                l.wf(),
                l.spec_clock() == now,
                l.records() == nodes@.take(i as int).map_values(|a: NodeAddress| (now, address_view(a))),
                forall|a: AddressView| #[trigger]
                    l.nodes().contains_key(a) <==> nodes@.take(i as int).map_values(
                        |n: NodeAddress| address_view(n),
                    ).contains(a),
                forall|a: AddressView| #[trigger] l.nodes().contains_key(a) ==> l.nodes()[a] == now,
            decreases nodes.len() - i,
        {
            let node = clone_address(&nodes[i]);
            let meta = NodeMetadata::with_last_used(now);
            let ghost before = l.nodes();
            let _ = l.insert_node(node, meta, now);
            proof {
                let f = |n: NodeAddress| address_view(n);
                let t = nodes@.take(i as int);
                let t1 = nodes@.take(i + 1);
                assert(t1 =~= t.push(nodes@[i as int]));
                assert(t1.map_values(f) =~= t.map_values(f).push(f(nodes@[i as int])));
                assert(l.records() =~= t1.map_values(|a: NodeAddress| (now, address_view(a))));
                assert forall|a: AddressView| #[trigger] l.nodes().contains_key(a) <==> t1.map_values(f).contains(a) by {
                    if t.map_values(f).contains(a) {
                        let k = choose|k: int| 0 <= k < t.map_values(f).len() && t.map_values(f)[k] == a;
                        assert(t1.map_values(f)[k] == a);
                    }
                    if t1.map_values(f).contains(a) && a != f(nodes@[i as int]) {
                        let k = choose|k: int| 0 <= k < t1.map_values(f).len() && t1.map_values(f)[k] == a;
                        assert(k < t.len());
                        assert(t.map_values(f)[k] == a);
                    }
                    if a == f(nodes@[i as int]) {
                        assert(t1.map_values(f)[i as int] == a);
                    }
                }
            }
            i = i + 1;
        }
        proof {
            assert(nodes@.take(nodes.len() as int) =~= nodes@);
        }
        l
    }
}

impl Default for NodeList {
    fn default() -> (l: Self)
        ensures
            l.wf(),
            l.nodes() == Map::<AddressView, u64>::empty(),
            l.records() == Seq::<(u64, AddressView)>::empty(),
    {
        NodeList::new()
    }
}

/// No node of a well-formed list was last used after the list's clock. A
/// node put back at a time not before the clock is therefore used no earlier
/// than any other node, and comes out of `next` after those used before it.
pub proof fn lemma_nodes_not_after_clock(l: NodeList)
    requires
        l.wf(),
    ensures
        forall|b: AddressView| #[trigger] l.nodes().contains_key(b) ==> l.nodes()[b] <= l.spec_clock(),
{
    assert forall|b: AddressView| #[trigger] l.nodes().contains_key(b) implies l.nodes()[b]
        <= l.spec_clock() by {
        let i = choose|i: int| 0 <= i < l.entries().len() && (#[trigger] l.entries()[i]).0 == b;
        lemma_assoc_index(l.entries(), i);
        assert(l.records().contains((l.entries()[i].1, l.entries()[i].0)));
        let j = choose|j: int| 0 <= j < l.records().len() && l.records()[j] == (l.entries()[i].1, l.entries()[i].0);
        assert(l.records()[j].0 <= l.spec_clock());
    }
}

/// Taking nodes out one after the other with `next` gives them in order of
/// last use: when `a` is the least recently used node of `nodes` (what `next`
/// returns) and `b` the least recently used of what is left, `a` was used no
/// later than `b`.
pub proof fn lemma_next_in_order(nodes: Map<AddressView, u64>, a: AddressView, b: AddressView)
    requires
        nodes.contains_key(a),
        forall|c: AddressView| #[trigger]
            nodes.contains_key(c) ==> record_le((nodes[a], a), (nodes[c], c)),
        nodes.remove(a).contains_key(b),
        forall|c: AddressView| #[trigger]
            nodes.remove(a).contains_key(c) ==> record_le((nodes.remove(a)[b], b), (nodes.remove(a)[c], c)),
    ensures
        record_le((nodes[a], a), (nodes[b], b)),
        nodes[a] <= nodes[b],
{
    assert(nodes.contains_key(b));
}

/// With a time not earlier than the clock, no record of any node is later.
pub proof fn lemma_clock_bounds_records(l: NodeList, a: AddressView, t: u64)
    requires
        l.wf(),
        t >= l.spec_clock(),
    ensures
        l.no_record_after(a, t),
{
}

} // verus!
