//! In-memory model of the versioned group engine.
//!
//! The engine stores, for each `(shard, key)` pair, a chain of versioned
//! records kept in strictly descending version order (newest first, so a
//! pending intent at `TXN_INTENT_VERSION` always sits on top). Writes are
//! staged in a [`WriteBatch`] and applied atomically by [`GroupEngine::commit`];
//! the contract of `commit` describes the new state of every chain through
//! the pure batch semantics [`apply_batch_to_chain`].

use vstd::prelude::*;

use crate::bytes::{bytes_eq, clone_bytes};
use crate::error::Error;
use crate::value::{Value, ValueView};

verus! {

/// Mathematical image of one staged mutation.
pub enum WriteOpView {
    Put { shard_id: u64, key: Seq<u8>, value: Seq<u8>, version: u64 },
    Tombstone { shard_id: u64, key: Seq<u8>, version: u64 },
    Delete { shard_id: u64, key: Seq<u8>, version: u64 },
}

/// One staged mutation of a write batch.
#[derive(Debug, Clone, PartialEq, Eq)]
pub enum WriteOp {
    /// Insert `value` at `version`.
    Put { shard_id: u64, key: Vec<u8>, value: Vec<u8>, version: u64 },
    /// Insert a tombstone at `version`.
    Tombstone { shard_id: u64, key: Vec<u8>, version: u64 },
    /// Remove the record at `version`, if present.
    Delete { shard_id: u64, key: Vec<u8>, version: u64 },
}

impl View for WriteOp {
    type V = WriteOpView;

    open spec fn view(&self) -> WriteOpView {
        match self {
            WriteOp::Put { shard_id, key, value, version } => WriteOpView::Put {
                shard_id: *shard_id,
                key: key@,
                value: value@,
                version: *version,
            },
            WriteOp::Tombstone { shard_id, key, version } => WriteOpView::Tombstone {
                shard_id: *shard_id,
                key: key@,
                version: *version,
            },
            WriteOp::Delete { shard_id, key, version } => WriteOpView::Delete {
                shard_id: *shard_id,
                key: key@,
                version: *version,
            },
        }
    }
}

/// Mutations staged for one atomic commit.
#[derive(Debug, Clone, PartialEq, Eq)]
pub struct WriteBatch {
    pub ops: Vec<WriteOp>,
}

impl View for WriteBatch {
    type V = Seq<WriteOpView>;

    open spec fn view(&self) -> Seq<WriteOpView> {
        self.ops@.map_values(|o: WriteOp| o@)
    }
}

impl WriteBatch {
    /// An empty batch.
    pub fn new() -> (r: WriteBatch)
        ensures
            r@ == Seq::<WriteOpView>::empty(),
    {
        let r = WriteBatch { ops: Vec::new() };
        assert(r@ =~= Seq::<WriteOpView>::empty());
        r
    }

    /// Whether nothing has been staged.
    pub fn is_empty(&self) -> (r: bool)
        ensures
            r == (self@.len() == 0),
    {
        self.ops.len() == 0
    }
}

/// The outcome of an evaluation: a batch to propose through the log.
#[derive(Debug, Clone, PartialEq, Eq)]
pub struct EvalResult {
    pub batch: WriteBatch,
}

impl EvalResult {
    /// Wraps a staged batch.
    pub fn with_batch(batch: WriteBatch) -> (r: EvalResult)
        ensures
            r.batch@ == batch@,
    {
        EvalResult { batch }
    }
}

/// Lifts a chain of stored records to its mathematical image.
pub open spec fn chain_view(vs: Seq<Value>) -> Seq<ValueView> {
    vs.map_values(|v: Value| v@)
}

/// Strictly descending version order: newest first, all versions distinct.
pub open spec fn descending(c: Seq<ValueView>) -> bool {
    forall|a: int, b: int| 0 <= a < b < c.len() ==> c[a].version > c[b].version
}

/// Inserts a record into a descending chain, replacing any record with the
/// same version.
pub open spec fn chain_insert(c: Seq<ValueView>, v: ValueView) -> Seq<ValueView>
    decreases c.len(),
{
    if c.len() == 0 {
        seq![v]
    } else if c[0].version > v.version {
        seq![c[0]] + chain_insert(c.drop_first(), v)
    } else if c[0].version == v.version {
        seq![v] + c.drop_first()
    } else {
        seq![v] + c
    }
}

/// Removes the record at `version` from a chain, if present.
pub open spec fn chain_remove(c: Seq<ValueView>, version: u64) -> Seq<ValueView>
    decreases c.len(),
{
    if c.len() == 0 {
        c
    } else if c[0].version == version {
        c.drop_first()
    } else {
        seq![c[0]] + chain_remove(c.drop_first(), version)
    }
}

/// The effect of one staged mutation on the chain of `(shard_id, key)`.
pub open spec fn apply_op_to_chain(
    c: Seq<ValueView>,
    op: WriteOpView,
    shard_id: u64,
    key: Seq<u8>,
) -> Seq<ValueView> {
    match op {
        WriteOpView::Put { shard_id: s, key: k, value, version } => {
            if s == shard_id && k == key {
                chain_insert(c, ValueView { version, content: Some(value) })
            } else {
                c
            }
        },
        WriteOpView::Tombstone { shard_id: s, key: k, version } => {
            if s == shard_id && k == key {
                chain_insert(c, ValueView { version, content: None })
            } else {
                c
            }
        },
        WriteOpView::Delete { shard_id: s, key: k, version } => {
            if s == shard_id && k == key {
                chain_remove(c, version)
            } else {
                c
            }
        },
    }
}

/// The effect of a whole batch, applied in order, on one chain.
pub open spec fn apply_batch_to_chain(
    c: Seq<ValueView>,
    ops: Seq<WriteOpView>,
    shard_id: u64,
    key: Seq<u8>,
) -> Seq<ValueView>
    decreases ops.len(),
{
    if ops.len() == 0 {
        c
    } else {
        apply_op_to_chain(
            apply_batch_to_chain(c, ops.drop_last(), shard_id, key),
            ops.last(),
            shard_id,
            key,
        )
    }
}

/// Where `pos` is the boundary (records before it are newer than `v`,
/// the record at it — if any — is not newer), `chain_insert` splices `v`
/// in at `pos` and the chain stays descending.
pub proof fn lemma_chain_insert_at(c: Seq<ValueView>, v: ValueView, pos: int)
    requires
        descending(c),
        0 <= pos <= c.len(),
        forall|a: int| 0 <= a < pos ==> c[a].version > v.version,
        pos < c.len() ==> c[pos].version <= v.version,
    ensures
        pos < c.len() && c[pos].version == v.version ==> chain_insert(c, v) == c.take(pos)
            + seq![v] + c.skip(pos + 1),
        !(pos < c.len() && c[pos].version == v.version) ==> chain_insert(c, v) == c.take(pos)
            + seq![v] + c.skip(pos),
        descending(chain_insert(c, v)),
    decreases pos,
{
    if pos == 0 {
        if c.len() == 0 {
            assert(chain_insert(c, v) =~= c.take(0) + seq![v] + c.skip(0));
        } else if c[0].version == v.version {
            assert(chain_insert(c, v) =~= c.take(0) + seq![v] + c.skip(1));
        } else {
            assert(c[0].version < v.version);
            assert(chain_insert(c, v) =~= c.take(0) + seq![v] + c.skip(0));
        }
    } else {
        assert(c[0].version > v.version);
        let d = c.drop_first();
        assert(descending(d));
        assert(forall|a: int| 0 <= a < pos - 1 ==> d[a].version > v.version);
        lemma_chain_insert_at(d, v, pos - 1);
        if pos < c.len() && c[pos].version == v.version {
            assert(chain_insert(c, v) =~= seq![c[0]] + (d.take(pos - 1) + seq![v] + d.skip(pos)));
            assert(seq![c[0]] + (d.take(pos - 1) + seq![v] + d.skip(pos)) =~= c.take(pos) + seq![v]
                + c.skip(pos + 1));
        } else {
            assert(chain_insert(c, v) =~= seq![c[0]] + (d.take(pos - 1) + seq![v] + d.skip(
                pos - 1,
            )));
            assert(seq![c[0]] + (d.take(pos - 1) + seq![v] + d.skip(pos - 1)) =~= c.take(pos)
                + seq![v] + c.skip(pos));
        }
    }
}

/// Where `idx` holds the record at `version`, `chain_remove` drops exactly
/// that record and the chain stays descending.
pub proof fn lemma_chain_remove_at(c: Seq<ValueView>, version: u64, idx: int)
    requires
        descending(c),
        0 <= idx < c.len(),
        c[idx].version == version,
    ensures
        chain_remove(c, version) == c.take(idx) + c.skip(idx + 1),
        descending(chain_remove(c, version)),
    decreases idx,
{
    if idx == 0 {
        assert(chain_remove(c, version) =~= c.take(0) + c.skip(1));
    } else {
        assert(c[0].version > version);
        let d = c.drop_first();
        assert(descending(d));
        lemma_chain_remove_at(d, version, idx - 1);
        assert(chain_remove(c, version) =~= seq![c[0]] + (d.take(idx - 1) + d.skip(idx)));
        assert(seq![c[0]] + (d.take(idx - 1) + d.skip(idx)) =~= c.take(idx) + c.skip(idx + 1));
    }
}

/// Removing a version that is not in the chain changes nothing.
pub proof fn lemma_chain_remove_absent(c: Seq<ValueView>, version: u64)
    requires
        forall|a: int| 0 <= a < c.len() ==> c[a].version != version,
    ensures
        chain_remove(c, version) == c,
    decreases c.len(),
{
    if c.len() == 0 {
    } else {
        let d = c.drop_first();
        lemma_chain_remove_absent(d, version);
        assert(chain_remove(c, version) =~= c);
    }
}

/// Inserting on top of a chain whose head is older than `v` just prepends.
pub proof fn lemma_chain_insert_newest(c: Seq<ValueView>, v: ValueView)
    requires
        c.len() == 0 || c[0].version < v.version,
    ensures
        chain_insert(c, v) == seq![v] + c,
{
    if c.len() == 0 {
        assert(chain_insert(c, v) =~= seq![v] + c);
    }
}

/// One key's stored chain within a shard.
#[derive(Debug, Clone, PartialEq, Eq)]
pub struct KeyEntry {
    pub shard_id: u64,
    pub key: Vec<u8>,
    pub versions: Vec<Value>,
}

/// The versioned store of one raft group, modeled in memory.
#[derive(Debug, Clone, PartialEq, Eq)]
pub struct GroupEngine {
    pub entries: Vec<KeyEntry>,
}

impl GroupEngine {
    /// Whether entry `i` holds `(shard_id, key)`.
    pub open spec fn entry_matches(self, i: int, shard_id: u64, key: Seq<u8>) -> bool {
        &&& 0 <= i < self.entries@.len()
        &&& self.entries@[i].shard_id == shard_id
        &&& self.entries@[i].key@ == key
    }

    /// Whether some entry holds `(shard_id, key)`.
    pub open spec fn has_key(self, shard_id: u64, key: Seq<u8>) -> bool {
        exists|i: int| self.entry_matches(i, shard_id, key)
    }

    /// The chain stored under `(shard_id, key)`; empty when absent.
    pub open spec fn chain_of(self, shard_id: u64, key: Seq<u8>) -> Seq<ValueView> {
        if self.has_key(shard_id, key) {
            let i = choose|i: int| self.entry_matches(i, shard_id, key);
            chain_view(self.entries@[i].versions@)
        } else {
            Seq::<ValueView>::empty()
        }
    }

    /// Well-formedness: chains are nonempty and strictly descending, and no
    /// `(shard, key)` pair appears twice.
    pub open spec fn wf(self) -> bool {
        &&& forall|i: int|
            0 <= i < self.entries@.len() ==> (#[trigger] self.entries@[i]).versions@.len() > 0
        &&& forall|i: int|
            0 <= i < self.entries@.len() ==> descending(
                chain_view((#[trigger] self.entries@[i]).versions@),
            )
        &&& forall|i: int, j: int|
            (0 <= i < self.entries@.len() && 0 <= j < self.entries@.len() && i != j) ==> !(
            (#[trigger] self.entries@[i]).shard_id == (#[trigger] self.entries@[j]).shard_id
                && self.entries@[i].key@ == self.entries@[j].key@)
    }

    /// Where entry `i` holds `(shard_id, key)`, the chain of that pair is
    /// exactly entry `i`'s chain.
    pub proof fn lemma_chain_of_at(self, i: int, shard_id: u64, key: Seq<u8>)
        requires
            self.wf(),
            self.entry_matches(i, shard_id, key),
        ensures
            self.has_key(shard_id, key),
            self.chain_of(shard_id, key) == chain_view(self.entries@[i].versions@),
    {
        let j = choose|j: int| self.entry_matches(j, shard_id, key);
        assert(j == i);
    }

    /// Every chain of a well-formed engine is strictly descending.
    pub proof fn lemma_wf_descending(self)
        requires
            self.wf(),
        ensures
            forall|s: u64, k: Seq<u8>| descending(#[trigger] self.chain_of(s, k)),
    {
        assert forall|s: u64, k: Seq<u8>| descending(#[trigger] self.chain_of(s, k)) by {
            if self.has_key(s, k) {
                let i = choose|i: int| self.entry_matches(i, s, k);
                assert(descending(chain_view(self.entries@[i].versions@)));
            }
        }
    }

    /// An empty engine.
    pub fn new() -> (r: GroupEngine)
        ensures
            r.wf(),
            forall|s: u64, k: Seq<u8>| r.chain_of(s, k) == Seq::<ValueView>::empty(),
    {
        let r = GroupEngine { entries: Vec::new() };
        assert(forall|s: u64, k: Seq<u8>| !r.has_key(s, k));
        r
    }

    /// Index of the entry holding `(shard_id, key)`, if any.
    fn find_entry(&self, shard_id: u64, key: &Vec<u8>) -> (r: Option<usize>)
        ensures
            match r {
                Some(i) => self.entry_matches(i as int, shard_id, key@),
                None => !self.has_key(shard_id, key@),
            },
    {
        let n = self.entries.len();
        let mut i: usize = 0;
        while i < n
            invariant
                i <= n,
                n == self.entries@.len(),
                forall|j: int| 0 <= j < i ==> !self.entry_matches(j, shard_id, key@),
            decreases n - i,
        {
            if self.entries[i].shard_id == shard_id && bytes_eq(&self.entries[i].key, key) {
                return Some(i);
            }
            i = i + 1;
        }
        None
    }

    /// Returns the newest record of the key, the pending intent included.
    ///
    /// A `None` result means the key has never been written (or every
    /// record of it has been deleted).
    pub fn get(&self, shard_id: u64, key: &Vec<u8>) -> (r: Option<Value>)
        requires
            self.wf(),
        ensures
            self.chain_of(shard_id, key@).len() == 0 ==> r is None,
            self.chain_of(shard_id, key@).len() > 0 ==> (r matches Some(v) && v@ == self.chain_of(
                shard_id,
                key@,
            )[0]),
    {
        match self.find_entry(shard_id, key) {
            Some(i) => {
                proof {
                    self.lemma_chain_of_at(i as int, shard_id, key@);
                }
                let e = &self.entries[i];
                let v0 = &e.versions[0];
                let content = match &v0.content {
                    Some(c) => Some(clone_bytes(c)),
                    None => None,
                };
                Some(Value { content, version: v0.version })
            },
            None => None,
        }
    }

    /// Returns the two newest records of the key: the top of the chain and
    /// the one directly beneath it.
    pub fn read_top_two(&self, shard_id: u64, key: &Vec<u8>) -> (r: (Option<Value>, Option<Value>))
        requires
            self.wf(),
        ensures
            ({
                let c = self.chain_of(shard_id, key@);
                &&& (c.len() == 0 ==> r.0 is None)
                &&& (c.len() > 0 ==> (r.0 matches Some(v) && v@ == c[0]))
                &&& (c.len() <= 1 ==> r.1 is None)
                &&& (c.len() > 1 ==> (r.1 matches Some(v) && v@ == c[1]))
            }),
    {
        match self.find_entry(shard_id, key) {
            Some(i) => {
                proof {
                    self.lemma_chain_of_at(i as int, shard_id, key@);
                }
                let e = &self.entries[i];
                let v0 = &e.versions[0];
                let top = Value {
                    content: match &v0.content {
                        Some(c) => Some(clone_bytes(c)),
                        None => None,
                    },
                    version: v0.version,
                };
                let under = if e.versions.len() > 1 {
                    let v1 = &e.versions[1];
                    Some(
                        Value {
                            content: match &v1.content {
                                Some(c) => Some(clone_bytes(c)),
                                None => None,
                            },
                            version: v1.version,
                        },
                    )
                } else {
                    None
                };
                (Some(top), under)
            },
            None => (None, None),
        }
    }

    /// Stages an insert of `value` at `version`. Never fails on this model.
    pub fn put(
        &self,
        wb: &mut WriteBatch,
        shard_id: u64,
        key: &Vec<u8>,
        value: &Vec<u8>,
        version: u64,
    ) -> (r: Result<(), Error>)
        ensures
            r is Ok,
            final(wb)@ == old(wb)@.push(
                WriteOpView::Put { shard_id, key: key@, value: value@, version },
            ),
    {
        let op = WriteOp::Put { shard_id, key: clone_bytes(key), value: clone_bytes(value), version };
        wb.ops.push(op);
        assert(final(wb)@ =~= old(wb)@.push(
            WriteOpView::Put { shard_id, key: key@, value: value@, version },
        ));
        Ok(())
    }

    /// Stages a tombstone at `version`.
    pub fn tombstone(
        &self,
        wb: &mut WriteBatch,
        shard_id: u64,
        key: &Vec<u8>,
        version: u64,
    ) -> (r: Result<(), Error>)
        ensures
            r is Ok,
            final(wb)@ == old(wb)@.push(WriteOpView::Tombstone { shard_id, key: key@, version }),
    {
        let op = WriteOp::Tombstone { shard_id, key: clone_bytes(key), version };
        wb.ops.push(op);
        assert(final(wb)@ =~= old(wb)@.push(
            WriteOpView::Tombstone { shard_id, key: key@, version },
        ));
        Ok(())
    }

    /// Stages a removal of the record at `version`.
    pub fn delete(
        &self,
        wb: &mut WriteBatch,
        shard_id: u64,
        key: &Vec<u8>,
        version: u64,
    ) -> (r: Result<(), Error>)
        ensures
            r is Ok,
            final(wb)@ == old(wb)@.push(WriteOpView::Delete { shard_id, key: key@, version }),
    {
        let op = WriteOp::Delete { shard_id, key: clone_bytes(key), version };
        wb.ops.push(op);
        assert(final(wb)@ =~= old(wb)@.push(
            WriteOpView::Delete { shard_id, key: key@, version },
        ));
        Ok(())
    }

    /// Applies one staged mutation to the store.
    fn apply_one(&mut self, op: &WriteOp)
        requires
            old(self).wf(),
        ensures
            final(self).wf(),
            forall|s: u64, k: Seq<u8>|
                final(self).chain_of(s, k) == apply_op_to_chain(old(self).chain_of(s, k), op@, s, k),
    {
        match op {
            WriteOp::Put { shard_id, key, value, version } => {
                self.upsert(*shard_id, key, Some(value), *version);
            },
            WriteOp::Tombstone { shard_id, key, version } => {
                self.upsert(*shard_id, key, None, *version);
            },
            WriteOp::Delete { shard_id, key, version } => {
                self.remove_version(*shard_id, key, *version);
            },
        }
    }

    /// Inserts a record (value or tombstone) into the chain of the key.
    fn upsert(&mut self, shard_id: u64, key: &Vec<u8>, value: Option<&Vec<u8>>, version: u64)
        requires
            old(self).wf(),
        ensures
            final(self).wf(),
            ({
                let v = ValueView {
                    version,
                    content: match value {
                        Some(c) => Some(c@),
                        None => None,
                    },
                };
                forall|s: u64, k: Seq<u8>|
                    final(self).chain_of(s, k) == (if s == shard_id && k == key@ {
                        chain_insert(old(self).chain_of(s, k), v)
                    } else {
                        old(self).chain_of(s, k)
                    })
            }),
    {
        let stored = Value {
            content: match value {
                Some(c) => Some(clone_bytes(c)),
                None => None,
            },
            version,
        };
        let ghost vv = stored@;
        match self.find_entry(shard_id, key) {
            Some(i) => {
                proof {
                    self.lemma_chain_of_at(i as int, shard_id, key@);
                }
                let mut e = self.entries.remove(i);
                let ghost old_chain = chain_view(e.versions@);
                let vn = e.versions.len();
                let mut pos: usize = 0;
                while pos < vn && e.versions[pos].version > version
                    invariant
                        pos <= vn,
                        vn == e.versions@.len(),
                        forall|a: int|
                            0 <= a < pos ==> chain_view(e.versions@)[a].version > version,
                    decreases vn - pos,
                {
                    pos = pos + 1;
                }
                let ghost p = pos as int;
                proof {
                    lemma_chain_insert_at(old_chain, vv, p);
                }
                if pos < vn && e.versions[pos].version == version {
                    e.versions.remove(pos);
                    e.versions.insert(pos, stored);
                    assert(chain_view(e.versions@) =~= old_chain.take(p) + seq![vv] + old_chain.skip(
                        p + 1,
                    ));
                } else {
                    e.versions.insert(pos, stored);
                    assert(chain_view(e.versions@) =~= old_chain.take(p) + seq![vv] + old_chain.skip(
                        p,
                    ));
                }
                assert(chain_view(e.versions@) == chain_insert(old_chain, vv));
                let ghost mid = *self;
                self.entries.insert(i, e);
                proof {
                    assert(self.entries@ =~= old(self).entries@.update(i as int, e));
                    self.lemma_frame_update(*old(self), i as int, shard_id, key@);
                }
            },
            None => {
                let mut versions: Vec<Value> = Vec::new();
                versions.push(stored);
                let e = KeyEntry { shard_id, key: clone_bytes(key), versions };
                assert(chain_view(e.versions@) =~= seq![vv]);
                self.entries.push(e);
                proof {
                    assert(old(self).chain_of(shard_id, key@) =~= Seq::<ValueView>::empty());
                    assert(chain_insert(Seq::<ValueView>::empty(), vv) =~= seq![vv]);
                    self.lemma_frame_push(*old(self), shard_id, key@);
                }
            },
        }
    }

    /// Removes the record at `version` from the chain of the key, dropping
    /// the whole entry when the chain becomes empty.
    fn remove_version(&mut self, shard_id: u64, key: &Vec<u8>, version: u64)
        requires
            old(self).wf(),
        ensures
            final(self).wf(),
            forall|s: u64, k: Seq<u8>|
                final(self).chain_of(s, k) == (if s == shard_id && k == key@ {
                    chain_remove(old(self).chain_of(s, k), version)
                } else {
                    old(self).chain_of(s, k)
                }),
    {
        match self.find_entry(shard_id, key) {
            Some(i) => {
                proof {
                    self.lemma_chain_of_at(i as int, shard_id, key@);
                }
                let mut e = self.entries.remove(i);
                let ghost old_chain = chain_view(e.versions@);
                let vn = e.versions.len();
                let mut pos: usize = 0;
                let mut found = false;
                while pos < vn && !found
                    invariant
                        pos <= vn,
                        vn == e.versions@.len(),
                        !found ==> forall|a: int|
                            0 <= a < pos ==> chain_view(e.versions@)[a].version != version,
                        found ==> pos < vn && chain_view(e.versions@)[pos as int].version
                            == version,
                    decreases vn - pos + (if found { 0int } else { 1int }),
                {
                    if e.versions[pos].version == version {
                        found = true;
                    } else {
                        pos = pos + 1;
                    }
                }
                if found {
                    let ghost p = pos as int;
                    proof {
                        lemma_chain_remove_at(old_chain, version, p);
                    }
                    e.versions.remove(pos);
                    assert(chain_view(e.versions@) =~= old_chain.take(p) + old_chain.skip(p + 1));
                    if e.versions.len() == 0 {
                        proof {
                            self.lemma_frame_remove(*old(self), i as int, shard_id, key@);
                            assert(chain_remove(old_chain, version) =~= Seq::<ValueView>::empty());
                        }
                    } else {
                        self.entries.insert(i, e);
                        proof {
                            assert(self.entries@ =~= old(self).entries@.update(i as int, e));
                            self.lemma_frame_update(*old(self), i as int, shard_id, key@);
                        }
                    }
                } else {
                    proof {
                        lemma_chain_remove_absent(old_chain, version);
                    }
                    self.entries.insert(i, e);
                    proof {
                        assert(self.entries@ =~= old(self).entries@.update(i as int, e));
                        self.lemma_frame_update(*old(self), i as int, shard_id, key@);
                    }
                }
            },
            None => {
                proof {
                    assert(old(self).chain_of(shard_id, key@) =~= Seq::<ValueView>::empty());
                    lemma_chain_remove_absent(Seq::<ValueView>::empty(), version);
                }
            },
        }
    }

    /// Frame lemma: replacing entry `i` (same shard and key, well-formed
    /// chain) rewrites exactly that key's chain.
    proof fn lemma_frame_update(self, prev: GroupEngine, i: int, shard_id: u64, key: Seq<u8>)
        requires
            prev.wf(),
            prev.entry_matches(i, shard_id, key),
            self.entries@ == prev.entries@.update(i, self.entries@[i]),
            0 <= i < self.entries@.len(),
            self.entries@[i].shard_id == shard_id,
            self.entries@[i].key@ == key,
            self.entries@[i].versions@.len() > 0,
            descending(chain_view(self.entries@[i].versions@)),
        ensures
            self.wf(),
            self.chain_of(shard_id, key) == chain_view(self.entries@[i].versions@),
            forall|s: u64, k: Seq<u8>|
                !(s == shard_id && k == key) ==> self.chain_of(s, k) == prev.chain_of(s, k),
    {
        assert(self.entries@.len() == prev.entries@.len());
        assert forall|j: int| 0 <= j < self.entries@.len() && j != i implies self.entries@[j]
            == prev.entries@[j] by {}
        assert(self.wf());
        self.lemma_chain_of_at(i, shard_id, key);
        assert forall|s: u64, k: Seq<u8>| !(s == shard_id && k == key) implies self.chain_of(s, k)
            == prev.chain_of(s, k) by {
            if prev.has_key(s, k) {
                let j = choose|j: int| prev.entry_matches(j, s, k);
                assert(j != i);
                assert(self.entry_matches(j, s, k));
                self.lemma_chain_of_at(j, s, k);
                prev.lemma_chain_of_at(j, s, k);
            } else {
                assert(!self.has_key(s, k)) by {
                    if self.has_key(s, k) {
                        let j = choose|j: int| self.entry_matches(j, s, k);
                        assert(j != i);
                        assert(prev.entry_matches(j, s, k));
                    }
                }
            }
        }
    }

    /// Frame lemma: appending an entry for a key that was absent leaves all
    /// other chains unchanged.
    proof fn lemma_frame_push(self, prev: GroupEngine, shard_id: u64, key: Seq<u8>)
        requires
            prev.wf(),
            !prev.has_key(shard_id, key),
            self.entries@ == prev.entries@.push(self.entries@[self.entries@.len() - 1]),
            self.entries@.len() == prev.entries@.len() + 1,
            self.entries@[self.entries@.len() - 1].shard_id == shard_id,
            self.entries@[self.entries@.len() - 1].key@ == key,
            self.entries@[self.entries@.len() - 1].versions@.len() > 0,
            descending(chain_view(self.entries@[self.entries@.len() - 1].versions@)),
        ensures
            self.wf(),
            self.chain_of(shard_id, key) == chain_view(
                self.entries@[self.entries@.len() - 1].versions@,
            ),
            forall|s: u64, k: Seq<u8>|
                !(s == shard_id && k == key) ==> self.chain_of(s, k) == prev.chain_of(s, k),
    {
        let last = self.entries@.len() - 1;
        assert forall|j: int| 0 <= j < prev.entries@.len() implies self.entries@[j]
            == prev.entries@[j] by {}
        assert(self.wf()) by {
            assert forall|i: int, j: int|
                (0 <= i < self.entries@.len() && 0 <= j < self.entries@.len() && i != j) implies !(
            self.entries@[i].shard_id == self.entries@[j].shard_id && self.entries@[i].key@
                == self.entries@[j].key@) by {
                if i == last && j < last {
                    assert(!prev.entry_matches(j, shard_id, key));
                } else if j == last && i < last {
                    assert(!prev.entry_matches(i, shard_id, key));
                }
            }
        }
        self.lemma_chain_of_at(last, shard_id, key);
        assert forall|s: u64, k: Seq<u8>| !(s == shard_id && k == key) implies self.chain_of(s, k)
            == prev.chain_of(s, k) by {
            if prev.has_key(s, k) {
                let j = choose|j: int| prev.entry_matches(j, s, k);
                assert(self.entry_matches(j, s, k));
                self.lemma_chain_of_at(j, s, k);
                prev.lemma_chain_of_at(j, s, k);
            } else {
                assert(!self.has_key(s, k)) by {
                    if self.has_key(s, k) {
                        let j = choose|j: int| self.entry_matches(j, s, k);
                        assert(j != last);
                        assert(prev.entry_matches(j, s, k));
                    }
                }
            }
        }
    }

    /// Frame lemma: dropping entry `i` erases exactly that key's chain.
    proof fn lemma_frame_remove(self, prev: GroupEngine, i: int, shard_id: u64, key: Seq<u8>)
        requires
            prev.wf(),
            prev.entry_matches(i, shard_id, key),
            self.entries@ == prev.entries@.remove(i),
        ensures
            self.wf(),
            self.chain_of(shard_id, key) == Seq::<ValueView>::empty(),
            forall|s: u64, k: Seq<u8>|
                !(s == shard_id && k == key) ==> self.chain_of(s, k) == prev.chain_of(s, k),
    {
        assert(self.entries@.len() == prev.entries@.len() - 1);
        assert forall|j: int| 0 <= j < self.entries@.len() implies self.entries@[j]
            == (if j < i {
            prev.entries@[j]
        } else {
            prev.entries@[j + 1]
        }) by {}
        assert(self.wf()) by {
            assert forall|a: int, b: int|
                (0 <= a < self.entries@.len() && 0 <= b < self.entries@.len() && a != b) implies !(
            self.entries@[a].shard_id == self.entries@[b].shard_id && self.entries@[a].key@
                == self.entries@[b].key@) by {
                let pa = if a < i { a } else { a + 1 };
                let pb = if b < i { b } else { b + 1 };
                assert(self.entries@[a] == prev.entries@[pa]);
                assert(self.entries@[b] == prev.entries@[pb]);
            }
        }
        assert(!self.has_key(shard_id, key)) by {
            if self.has_key(shard_id, key) {
                let j = choose|j: int| self.entry_matches(j, shard_id, key);
                let pj = if j < i { j } else { j + 1 };
                assert(prev.entry_matches(pj, shard_id, key));
                assert(pj != i);
            }
        }
        assert forall|s: u64, k: Seq<u8>| !(s == shard_id && k == key) implies self.chain_of(s, k)
            == prev.chain_of(s, k) by {
            if prev.has_key(s, k) {
                let j = choose|j: int| prev.entry_matches(j, s, k);
                assert(j != i);
                let nj = if j < i { j } else { j - 1 };
                assert(self.entry_matches(nj, s, k));
                self.lemma_chain_of_at(nj, s, k);
                prev.lemma_chain_of_at(j, s, k);
            } else {
                assert(!self.has_key(s, k)) by {
                    if self.has_key(s, k) {
                        let j = choose|j: int| self.entry_matches(j, s, k);
                        let pj = if j < i { j } else { j + 1 };
                        assert(prev.entry_matches(pj, s, k));
                    }
                }
            }
        }
    }

    /// Applies a staged batch atomically: afterwards every chain equals the
    /// pure batch semantics applied to its old state.
    pub fn commit(&mut self, wb: &WriteBatch)
        requires
            old(self).wf(),
        ensures
            final(self).wf(),
            forall|s: u64, k: Seq<u8>|
                final(self).chain_of(s, k) == apply_batch_to_chain(
                    old(self).chain_of(s, k),
                    wb@,
                    s,
                    k,
                ),
    {
        let n = wb.ops.len();
        let mut i: usize = 0;
        while i < n
            invariant
                i <= n,
                n == wb.ops@.len(),
                self.wf(),
                forall|s: u64, k: Seq<u8>|
                    self.chain_of(s, k) == apply_batch_to_chain(
                        old(self).chain_of(s, k),
                        wb@.take(i as int),
                        s,
                        k,
                    ),
            decreases n - i,
        {
            let ghost prev = *self;
            self.apply_one(&wb.ops[i]);
            i = i + 1;
            proof {
                assert forall|s: u64, k: Seq<u8>| self.chain_of(s, k) == apply_batch_to_chain(
                    old(self).chain_of(s, k),
                    wb@.take(i as int),
                    s,
                    k,
                ) by {
                    let t = wb@.take(i as int);
                    assert(t.drop_last() =~= wb@.take(i - 1));
                    assert(t.last() == wb@[i - 1]);
                }
            }
        }
        proof {
            assert(wb@.take(n as int) =~= wb@);
        }
    }
}

} // verus!
