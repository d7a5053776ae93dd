//! The journaled substate: one layer per frame over the world state. Reads
//! walk from the current layer down; writes go to the current layer only;
//! a finished frame's layer is either committed into its parent or discarded.
use vstd::prelude::*;
use crate::u256::U256;

verus! {

/// An account address: the low 160 bits of a word.
pub type Address = U256;

/// Nonce and balance of an account.
#[derive(Clone, Copy, PartialEq, Eq, Debug, Structural)]
pub struct Basic {
    pub balance: U256,
    pub nonce: U256,
}

/// A change to storage, in the order it was made.
#[derive(Clone, Copy, PartialEq, Eq, Debug, Structural)]
pub enum StorageEvent {
    Write { address: Address, key: U256, value: U256 },
    /// Every slot of the account is cleared.
    Reset { address: Address },
}

/// A log entry emitted by a frame.
#[derive(Clone, Debug)]
pub struct Log {
    pub address: Address,
    pub topics: Vec<U256>,
    pub data: Vec<u8>,
}

/// The latest known state of an account in a layer.
#[derive(Clone, Debug)]
pub struct AccountRecord {
    pub address: Address,
    pub basic: Basic,
    pub code: Option<Vec<u8>>,
}

/// What a layer records of its frame.
#[derive(Clone, Copy, PartialEq, Eq, Debug, Structural)]
pub struct Metadata {
    pub gas_limit: u64,
    pub depth: usize,
}

/// What one frame changed over its parent.
pub struct Layer {
    metadata: Metadata,
    storage: Vec<StorageEvent>,
    accounts: Vec<AccountRecord>,
    logs: Vec<Log>,
    deletes: Vec<Address>,
}

/// A layer as the contracts see it.
pub struct LayerView {
    pub metadata: Metadata,
    pub storage: Seq<StorageEvent>,
    pub accounts: Seq<AccountRecord>,
    pub logs: Seq<Log>,
    pub deletes: Seq<Address>,
}

impl View for Layer {
    type V = LayerView;

    closed spec fn view(&self) -> LayerView {
        LayerView {
            metadata: self.metadata,
            storage: self.storage@,
            accounts: self.accounts@,
            logs: self.logs@,
            deletes: self.deletes@,
        }
    }
}

/// A fresh layer for a frame.
pub open spec fn empty_layer(metadata: Metadata) -> LayerView {
    LayerView {
        metadata,
        storage: Seq::empty(),
        accounts: Seq::empty(),
        logs: Seq::empty(),
        deletes: Seq::empty(),
    }
}

/// The value a run of storage changes gives to a slot, if it says anything of it.
pub open spec fn storage_lookup(ev: Seq<StorageEvent>, address: Address, key: U256) -> Option<nat>
    decreases ev.len(),
{
    if ev.len() == 0 {
        None
    } else {
        match ev.last() {
            StorageEvent::Write { address: a, key: k, value } => if a == address && k == key {
                Some(value.value())
            } else {
                storage_lookup(ev.drop_last(), address, key)
            },
            StorageEvent::Reset { address: a } => if a == address {
                Some(0)
            } else {
                storage_lookup(ev.drop_last(), address, key)
            },
        }
    }
}

/// Whether a run of storage changes clears the account's storage.
pub open spec fn has_reset(ev: Seq<StorageEvent>, address: Address) -> bool {
    exists|i: int| 0 <= i < ev.len() && ev[i] == (StorageEvent::Reset { address })
}

/// A slot as the layers see it: the nearest layer that says anything of it decides.
pub open spec fn known_storage_of(layers: Seq<LayerView>, address: Address, key: U256) -> Option<nat>
    decreases layers.len(),
{
    if layers.len() == 0 {
        None
    } else {
        match storage_lookup(layers.last().storage, address, key) {
            Some(v) => Some(v),
            None => known_storage_of(layers.drop_last(), address, key),
        }
    }
}

/// A slot's value before the transaction, where the layers know it: zero once
/// the account's storage was cleared.
pub open spec fn known_original_of(layers: Seq<LayerView>, address: Address) -> Option<nat> {
    if exists|j: int| 0 <= j < layers.len() && has_reset(#[trigger] layers[j].storage, address) {
        Some(0)
    } else {
        None
    }
}

/// The latest record of an account in a run of records.
pub open spec fn account_lookup(recs: Seq<AccountRecord>, address: Address) -> Option<AccountRecord>
    decreases recs.len(),
{
    if recs.len() == 0 {
        None
    } else if recs.last().address == address {
        Some(recs.last())
    } else {
        account_lookup(recs.drop_last(), address)
    }
}

/// An account as the layers see it.
pub open spec fn known_account_of(layers: Seq<LayerView>, address: Address) -> Option<AccountRecord>
    decreases layers.len(),
{
    if layers.len() == 0 {
        None
    } else {
        match account_lookup(layers.last().accounts, address) {
            Some(r) => Some(r),
            None => known_account_of(layers.drop_last(), address),
        }
    }
}

/// Whether some layer marks the address deleted.
pub open spec fn deleted_in(layers: Seq<LayerView>, address: Address) -> bool {
    exists|j: int| 0 <= j < layers.len() && #[trigger] layers[j].deletes.contains(address)
}

/// The parent after a child layer is committed into it: the child's changes
/// come after the parent's, in the order they were made.
pub open spec fn committed(parent: LayerView, child: LayerView) -> LayerView {
    LayerView {
        metadata: parent.metadata,
        storage: parent.storage + child.storage,
        accounts: parent.accounts + child.accounts,
        logs: parent.logs + child.logs,
        deletes: parent.deletes + child.deletes,
    }
}

pub struct MemoryStackSubstate {
    layers: Vec<Layer>,
}

impl View for MemoryStackSubstate {
    type V = Seq<LayerView>;

    /// The layers, the transaction's root first and the current frame's last.
    closed spec fn view(&self) -> Seq<LayerView> {
        self.layers@.map_values(|l: Layer| l@)
    }
}

/// The value of a word that may be missing.
pub open spec fn opt_value(o: Option<U256>) -> Option<nat> {
    match o {
        Some(v) => Some(v.value()),
        None => None,
    }
}

/// The layers with the current one replaced.
pub open spec fn with_top(layers: Seq<LayerView>, top: LayerView) -> Seq<LayerView> {
    layers.drop_last().push(top)
}

/// The current layer with one more storage change.
pub open spec fn top_with_storage(layers: Seq<LayerView>, e: StorageEvent) -> LayerView {
    LayerView { storage: layers.last().storage.push(e), ..layers.last() }
}

fn lookup_in_layer(ev: &Vec<StorageEvent>, address: &Address, key: &U256) -> (r: Option<U256>)
    ensures
        opt_value(r) == storage_lookup(ev@, *address, *key),
{
    let mut i = ev.len();
    proof {
        assert(ev@.subrange(0, ev@.len() as int) == ev@);
    }
    while i > 0
        invariant
            i <= ev@.len(),
            storage_lookup(ev@, *address, *key) == storage_lookup(ev@.subrange(0, i as int), *address, *key),
        decreases i,
    {
        let sub = Ghost(ev@.subrange(0, i as int));
        proof {
            assert(sub@.drop_last() == ev@.subrange(0, i - 1));
            assert(sub@.last() == ev@[i - 1]);
        }
        match ev[i - 1] {
            StorageEvent::Write { address: a, key: k, value } => {
                if a == *address && k == *key {
                    return Some(value);
                }
            },
            StorageEvent::Reset { address: a } => {
                if a == *address {
                    return Some(U256::zero());
                }
            },
        }
        i = i - 1;
    }
    None
}

fn account_in_layer(recs: &Vec<AccountRecord>, address: &Address) -> (r: Option<usize>)
    ensures
        r matches Some(i) ==> i < recs@.len() && account_lookup(recs@, *address) == Some(recs@[i as int]),
        r is None ==> account_lookup(recs@, *address) is None,
{
    let mut i = recs.len();
    proof {
        assert(recs@.subrange(0, recs@.len() as int) == recs@);
    }
    while i > 0
        invariant
            i <= recs@.len(),
            account_lookup(recs@, *address) == account_lookup(recs@.subrange(0, i as int), *address),
        decreases i,
    {
        let sub = Ghost(recs@.subrange(0, i as int));
        proof {
            assert(sub@.drop_last() == recs@.subrange(0, i - 1));
            assert(sub@.last() == recs@[i - 1]);
        }
        if recs[i - 1].address == *address {
            return Some(i - 1);
        }
        i = i - 1;
    }
    None
}

/// The bytes of code that may be missing.
pub open spec fn opt_bytes(o: Option<Vec<u8>>) -> Option<Seq<u8>> {
    match o {
        Some(v) => Some(v@),
        None => None,
    }
}

impl MemoryStackSubstate {
    /// Well-formed: there is a current layer.
    pub open spec fn wf(&self) -> bool {
        self@.len() >= 1
    }

    pub fn new(metadata: Metadata) -> (r: MemoryStackSubstate)
        ensures
            r@ == seq![empty_layer(metadata)],
            r.wf(),
    {
        let layer = Layer {
            metadata,
            storage: Vec::new(),
            accounts: Vec::new(),
            logs: Vec::new(),
            deletes: Vec::new(),
        };
        let mut layers = Vec::new();
        layers.push(layer);
        let r = MemoryStackSubstate { layers };
        proof {
            assert(r@ =~= seq![empty_layer(metadata)]);
        }
        r
    }

    /// The number of layers: one per open frame.
    pub fn depth(&self) -> (r: usize)
        ensures
            r == self@.len(),
    {
        self.layers.len()
    }

    /// The current frame's gas bookkeeping.
    pub fn metadata(&self) -> (r: Metadata)
        requires
            self.wf(),
        ensures
            r == self@.last().metadata,
    {
        self.layers[self.layers.len() - 1].metadata
    }

    fn take_top(&mut self) -> (r: Layer)
        requires
            old(self).wf(),
        ensures
            final(self)@ == old(self)@.drop_last(),
            r@ == old(self)@.last(),
    {
        let r = self.layers.pop().unwrap();
        proof {
            assert(final(self)@ =~= old(self)@.drop_last());
        }
        r
    }

    fn put_top(&mut self, layer: Layer)
        ensures
            final(self)@ == old(self)@.push(layer@),
    {
        self.layers.push(layer);
        proof {
            assert(final(self)@ =~= old(self)@.push(layer@));
        }
    }

    /// Replaces the current frame's gas bookkeeping.
    pub fn set_metadata(&mut self, metadata: Metadata)
        requires
            old(self).wf(),
        ensures
            final(self)@ == with_top(old(self)@, LayerView { metadata, ..old(self)@.last() }),
    {
        let mut top = self.take_top();
        top.metadata = metadata;
        self.put_top(top);
    }

    /// Opens a layer for a new frame.
    pub fn enter(&mut self, metadata: Metadata)
        ensures
            final(self)@ == old(self)@.push(empty_layer(metadata)),
    {
        let layer = Layer {
            metadata,
            storage: Vec::new(),
            accounts: Vec::new(),
            logs: Vec::new(),
            deletes: Vec::new(),
        };
        self.put_top(layer);
    }

    /// Merges the current frame's layer into its parent.
    pub fn commit(&mut self)
        requires
            old(self)@.len() >= 2,
        ensures
            final(self)@ == old(self)@.drop_last().drop_last().push(
                committed(old(self)@[old(self)@.len() - 2], old(self)@.last()),
            ),
    {
        let mut child = self.take_top();
        let mut parent = self.take_top();
        parent.storage.append(&mut child.storage);
        parent.accounts.append(&mut child.accounts);
        parent.logs.append(&mut child.logs);
        parent.deletes.append(&mut child.deletes);
        self.put_top(parent);
    }

    /// The log entries of the current layer, in the order they were emitted.
    pub fn current_logs(&self) -> (r: &Vec<Log>)
        requires
            self.wf(),
        ensures
            r@ == self@.last().logs,
    {
        &self.layers[self.layers.len() - 1].logs
    }

    /// Drops the current frame's layer.
    pub fn discard(&mut self)
        requires
            old(self)@.len() >= 2,
        ensures
            final(self)@ == old(self)@.drop_last(),
    {
        let _ = self.take_top();
    }

    /// A slot's value where the layers know it.
    pub fn known_storage(&self, address: Address, key: U256) -> (r: Option<U256>)
        ensures
            opt_value(r) == known_storage_of(self@, address, key),
    {
        let mut j = self.layers.len();
        proof {
            assert(self@.subrange(0, self@.len() as int) == self@);
        }
        while j > 0
            invariant
                j <= self@.len(),
                self@.len() == self.layers@.len(),
                known_storage_of(self@, address, key) == known_storage_of(self@.subrange(0, j as int), address, key),
            decreases j,
        {
            let sub = Ghost(self@.subrange(0, j as int));
            proof {
                assert(sub@.drop_last() == self@.subrange(0, j - 1));
                assert(sub@.last() == self.layers@[j - 1]@);
            }
            match lookup_in_layer(&self.layers[j - 1].storage, &address, &key) {
                Some(v) => {
                    return Some(v);
                },
                None => {},
            }
            j = j - 1;
        }
        None
    }

    /// A slot's value before the transaction where the layers know it.
    pub fn known_original_storage(&self, address: Address, key: U256) -> (r: Option<U256>)
        ensures
            opt_value(r) == known_original_of(self@, address),
    {
        let mut j: usize = 0;
        while j < self.layers.len()
            invariant
                j <= self@.len(),
                self@.len() == self.layers@.len(),
                forall|m: int| 0 <= m < j ==> !has_reset(#[trigger] self@[m].storage, address),
            decreases self@.len() - j,
        {
            let ev = &self.layers[j].storage;
            proof {
                assert(self@[j as int] == self.layers@[j as int]@);
            }
            let mut i: usize = 0;
            while i < ev.len()
                invariant
                    i <= ev@.len(),
                    j < self@.len(),
                    ev@ == self@[j as int].storage,
                    forall|n: int| 0 <= n < i ==> ev@[n] != (StorageEvent::Reset { address }),
                decreases ev@.len() - i,
            {
                if ev[i] == (StorageEvent::Reset { address }) {
                    proof {
                        assert(self@[j as int].storage[i as int] == (StorageEvent::Reset { address }));
                        assert(has_reset(self@[j as int].storage, address));
                    }
                    return Some(U256::zero());
                }
                i = i + 1;
            }
            j = j + 1;
        }
        None
    }

    /// Where the latest record of an account stands: its layer and its index.
    fn find_account(&self, address: Address) -> (r: Option<(usize, usize)>)
        ensures
            r matches Some(p) ==> p.0 < self@.len() && p.1 < self@[p.0 as int].accounts.len()
                && known_account_of(self@, address) == Some(self@[p.0 as int].accounts[p.1 as int]),
            r is None ==> known_account_of(self@, address) is None,
    {
        let mut j = self.layers.len();
        proof {
            assert(self@.subrange(0, self@.len() as int) == self@);
        }
        while j > 0
            invariant
                j <= self@.len(),
                self@.len() == self.layers@.len(),
                known_account_of(self@, address) == known_account_of(self@.subrange(0, j as int), address),
            decreases j,
        {
            let sub = Ghost(self@.subrange(0, j as int));
            proof {
                assert(sub@.drop_last() == self@.subrange(0, j - 1));
                assert(sub@.last() == self.layers@[j - 1]@);
            }
            match account_in_layer(&self.layers[j - 1].accounts, &address) {
                Some(i) => {
                    return Some((j - 1, i));
                },
                None => {},
            }
            j = j - 1;
        }
        None
    }

    /// An account's nonce and balance where the layers know them.
    pub fn known_basic(&self, address: Address) -> (r: Option<Basic>)
        ensures
            r == (match known_account_of(self@, address) {
                Some(rec) => Some(rec.basic),
                None => None::<Basic>,
            }),
    {
        match self.find_account(address) {
            Some((j, i)) => {
                proof {
                    assert(self@[j as int] == self.layers@[j as int]@);
                }
                Some(self.layers[j].accounts[i].basic)
            },
            None => None,
        }
    }

    /// An account's code where the layers know it.
    pub fn known_code(&self, address: Address) -> (r: Option<Vec<u8>>)
        ensures
            opt_bytes(r) == (match known_account_of(self@, address) {
                Some(rec) => opt_bytes(rec.code),
                None => None::<Seq<u8>>,
            }),
    {
        match self.find_account(address) {
            Some((j, i)) => {
                proof {
                    assert(self@[j as int] == self.layers@[j as int]@);
                }
                match &self.layers[j].accounts[i].code {
                    Some(c) => Some(c.clone()),
                    None => None,
                }
            },
            None => None,
        }
    }

    /// Whether a known account is empty: no balance, no nonce and no code;
    /// None where the layers do not know the account's code.
    pub fn known_empty(&self, address: Address) -> (r: Option<bool>)
        ensures
            r matches Some(e) ==> (known_account_of(self@, address) matches Some(rec) && (rec.code matches Some(
                c,
            ) && e == (rec.basic.balance.value() == 0 && rec.basic.nonce.value() == 0 && c@.len() == 0))),
            r is None ==> (known_account_of(self@, address) matches Some(rec) ==> rec.code is None),
    {
        match self.find_account(address) {
            Some((j, i)) => {
                proof {
                    assert(self@[j as int] == self.layers@[j as int]@);
                }
                let rec = &self.layers[j].accounts[i];
                match &rec.code {
                    Some(c) => Some(rec.basic.balance.is_zero() && rec.basic.nonce.is_zero() && c.len() == 0),
                    None => None,
                }
            },
            None => None,
        }
    }

    /// Whether some layer marks the address deleted.
    pub fn deleted(&self, address: Address) -> (r: bool)
        ensures
            r == deleted_in(self@, address),
    {
        let mut j: usize = 0;
        while j < self.layers.len()
            invariant
                j <= self@.len(),
                self@.len() == self.layers@.len(),
                forall|m: int| 0 <= m < j ==> !(#[trigger] self@[m].deletes.contains(address)),
            decreases self@.len() - j,
        {
            let d = &self.layers[j].deletes;
            proof {
                assert(self@[j as int] == self.layers@[j as int]@);
            }
            let mut i: usize = 0;
            while i < d.len()
                invariant
                    i <= d@.len(),
                    j < self@.len(),
                    d@ == self@[j as int].deletes,
                    forall|n: int| 0 <= n < i ==> d@[n] != address,
                decreases d@.len() - i,
            {
                if d[i] == address {
                    proof {
                        assert(self@[j as int].deletes[i as int] == address);
                        assert(self@[j as int].deletes.contains(address));
                    }
                    return true;
                }
                i = i + 1;
            }
            j = j + 1;
        }
        false
    }

    fn push_storage_event(&mut self, e: StorageEvent)
        requires
            old(self).wf(),
        ensures
            final(self).wf(),
            final(self)@ == with_top(old(self)@, top_with_storage(old(self)@, e)),
    {
        let mut top = self.take_top();
        top.storage.push(e);
        self.put_top(top);
    }

    /// Writes a slot in the current layer.
    pub fn set_storage(&mut self, address: Address, key: U256, value: U256)
        requires
            old(self).wf(),
        ensures
            final(self).wf(),
            final(self)@ == with_top(
                old(self)@,
                top_with_storage(old(self)@, StorageEvent::Write { address, key, value }),
            ),
            forall|a: Address| #[trigger] known_original_of(final(self)@, a) == known_original_of(old(self)@, a),
    {
        self.push_storage_event(StorageEvent::Write { address, key, value });
        proof {
            assert forall|a: Address| #[trigger] known_original_of(final(self)@, a) == known_original_of(old(self)@, a) by {
                lemma_write_keeps_original(old(self)@, address, key, value, a);
            }
        }
    }

    /// Clears every slot of the account, in the current layer.
    pub fn reset_storage(&mut self, address: Address)
        requires
            old(self).wf(),
        ensures
            final(self).wf(),
            final(self)@ == with_top(old(self)@, top_with_storage(old(self)@, StorageEvent::Reset { address })),
    {
        self.push_storage_event(StorageEvent::Reset { address });
    }

    /// Records an account's state in the current layer.
    pub fn set_account(&mut self, address: Address, basic: Basic, code: Option<Vec<u8>>)
        requires
            old(self).wf(),
        ensures
            final(self).wf(),
            final(self)@ == with_top(
                old(self)@,
                LayerView {
                    accounts: old(self)@.last().accounts.push(AccountRecord { address, basic, code }),
                    ..old(self)@.last()
                },
            ),
            forall|a: Address| #[trigger] known_original_of(final(self)@, a) == known_original_of(old(self)@, a),
    {
        let mut top = self.take_top();
        top.accounts.push(AccountRecord { address, basic, code });
        self.put_top(top);
        proof {
            assert forall|a: Address| #[trigger] known_original_of(final(self)@, a) == known_original_of(old(self)@, a) by {
                lemma_same_storage_keeps_original(old(self)@, final(self)@, a);
            }
        }
    }

    /// Appends a log entry in the current layer.
    pub fn log(&mut self, address: Address, topics: Vec<U256>, data: Vec<u8>)
        requires
            old(self).wf(),
        ensures
            final(self).wf(),
            final(self)@ == with_top(
                old(self)@,
                LayerView {
                    logs: old(self)@.last().logs.push(Log { address, topics, data }),
                    ..old(self)@.last()
                },
            ),
            forall|a: Address| #[trigger] known_original_of(final(self)@, a) == known_original_of(old(self)@, a),
    {
        let mut top = self.take_top();
        top.logs.push(Log { address, topics, data });
        self.put_top(top);
        proof {
            assert forall|a: Address| #[trigger] known_original_of(final(self)@, a) == known_original_of(old(self)@, a) by {
                lemma_same_storage_keeps_original(old(self)@, final(self)@, a);
            }
        }
    }

    /// Marks the address deleted in the current layer.
    pub fn set_deleted(&mut self, address: Address)
        requires
            old(self).wf(),
        ensures
            final(self).wf(),
            final(self)@ == with_top(
                old(self)@,
                LayerView { deletes: old(self)@.last().deletes.push(address), ..old(self)@.last() },
            ),
            forall|a: Address| #[trigger] known_original_of(final(self)@, a) == known_original_of(old(self)@, a),
    {
        let mut top = self.take_top();
        top.deletes.push(address);
        self.put_top(top);
        proof {
            assert forall|a: Address| #[trigger] known_original_of(final(self)@, a) == known_original_of(old(self)@, a) by {
                lemma_same_storage_keeps_original(old(self)@, final(self)@, a);
            }
        }
    }
}

/// Discarding a frame gives back exactly the layers as they were when it was
/// entered, whatever the frame did in its own layer meanwhile: each state of
/// `trace` differs from the one before only in the current layer.
pub proof fn lemma_discard_restores(before: Seq<LayerView>, metadata: Metadata, trace: Seq<Seq<LayerView>>)
    requires
        trace.len() > 0,
        trace[0] == before.push(empty_layer(metadata)),
        forall|i: int|
            0 < i < trace.len() ==> (#[trigger] trace[i]).len() == trace[i - 1].len() && trace[i].drop_last()
                == trace[i - 1].drop_last(),
    ensures
        trace.last().drop_last() == before,
    decreases trace.len(),
{
    if trace.len() > 1 {
        let shorter = trace.drop_last();
        assert forall|i: int| 0 < i < shorter.len() implies (#[trigger] shorter[i]).len() == shorter[i
            - 1].len() && shorter[i].drop_last() == shorter[i - 1].drop_last() by {
            assert(shorter[i] == trace[i]);
        }
        lemma_discard_restores(before, metadata, shorter);
        assert(trace[trace.len() - 1] == trace.last());
    } else {
        assert(before.push(empty_layer(metadata)).drop_last() == before);
    }
}

/// Changes that leave every layer's storage events as they were keep every
/// slot's value before the transaction.
pub proof fn lemma_same_storage_keeps_original(before: Seq<LayerView>, after: Seq<LayerView>, a: Address)
    requires
        before.len() == after.len(),
        forall|j: int| 0 <= j < before.len() ==> (#[trigger] after[j]).storage == before[j].storage,
    ensures
        known_original_of(after, a) == known_original_of(before, a),
{
    if exists|j: int| 0 <= j < after.len() && has_reset(#[trigger] after[j].storage, a) {
        let j = choose|j: int| 0 <= j < after.len() && has_reset(#[trigger] after[j].storage, a);
        assert(has_reset(before[j].storage, a));
    }
    if exists|j: int| 0 <= j < before.len() && has_reset(#[trigger] before[j].storage, a) {
        let j = choose|j: int| 0 <= j < before.len() && has_reset(#[trigger] before[j].storage, a);
        assert(after[j].storage == before[j].storage);
        assert(has_reset(after[j].storage, a));
    }
}

/// A storage write changes no slot's value before the transaction.
pub proof fn lemma_write_keeps_original(layers: Seq<LayerView>, address: Address, key: U256, value: U256, other: Address)
    requires
        layers.len() >= 1,
    ensures
        known_original_of(
            with_top(layers, top_with_storage(layers, StorageEvent::Write { address, key, value })),
            other,
        ) == known_original_of(layers, other),
{
    let after = with_top(layers, top_with_storage(layers, StorageEvent::Write { address, key, value }));
    let n = layers.len() - 1;
    assert(has_reset(after[n].storage, other) == has_reset(layers[n].storage, other)) by {
        if has_reset(after[n].storage, other) {
            let i = choose|i: int| 0 <= i < after[n].storage.len() && after[n].storage[i] == (StorageEvent::Reset { address: other });
            assert(i < layers[n].storage.len());
            assert(layers[n].storage[i] == after[n].storage[i]);
        }
        if has_reset(layers[n].storage, other) {
            let i = choose|i: int| 0 <= i < layers[n].storage.len() && layers[n].storage[i] == (StorageEvent::Reset { address: other });
            assert(after[n].storage[i] == layers[n].storage[i]);
        }
    }
    assert forall|j: int| 0 <= j < layers.len() implies has_reset(#[trigger] after[j].storage, other)
        == has_reset(layers[j].storage, other) by {
        if j < n {
            assert(after[j] == layers[j]);
        }
    }
    if exists|j: int| 0 <= j < after.len() && has_reset(#[trigger] after[j].storage, other) {
        let j = choose|j: int| 0 <= j < after.len() && has_reset(#[trigger] after[j].storage, other);
        assert(has_reset(layers[j].storage, other));
    }
    if exists|j: int| 0 <= j < layers.len() && has_reset(#[trigger] layers[j].storage, other) {
        let j = choose|j: int| 0 <= j < layers.len() && has_reset(#[trigger] layers[j].storage, other);
        assert(has_reset(after[j].storage, other));
    }
}

} // verus!
