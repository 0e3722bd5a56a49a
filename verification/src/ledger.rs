//! The mathematical model of the pallet's state and its transitions.
//!
//! The executable pallet's contracts are stated against this model: a map
//! from relay block height to storage root, the arrival-order queue of the
//! heights currently present, the per-block inclusion guard, and the
//! configuration. The model owns the laws of the ledger: the capacity
//! invariant, oldest-first eviction, and the idempotence of re-inserts.

use vstd::prelude::*;

use crate::Config;
use crate::Hash256;
use crate::RelayBlockNumber;

verus! {

/// One recorded entry: a relay block height and the storage root reported
/// for it.
pub type StorageRootEntry = (RelayBlockNumber, Hash256);

/// The heights of a sequence of entries, in arrival order.
pub open spec fn heights_of(entries: Seq<StorageRootEntry>) -> Seq<RelayBlockNumber> {
    entries.map_values(|e: StorageRootEntry| e.0)
}

/// The abstract state of the pallet.
///
/// `keys` lists exactly the keys of `roots` in arrival order; the front is
/// the oldest entry and the next to be evicted.
#[verifier::ext_equal]
pub struct PalletModel {
    pub roots: Map<RelayBlockNumber, Hash256>,
    pub keys: Seq<RelayBlockNumber>,
    pub inherent_included: bool,
    pub config: Config,
}

impl PalletModel {
    /// Well-formedness: the queue holds exactly the key set of the mapping,
    /// without duplicates, and never more than the (positive) capacity.
    pub open spec fn wf(self) -> bool {
        &&& self.keys.no_duplicates()
        &&& forall|h: RelayBlockNumber| #![auto] self.roots.contains_key(h) <==> self.keys.contains(h)
        &&& self.keys.len() <= self.config.max_storage_roots
        &&& self.config.max_storage_roots >= 1
    }

    /// The state of a freshly constructed pallet: nothing recorded, guard unset.
    pub open spec fn empty(config: Config) -> PalletModel {
        PalletModel {
            roots: Map::empty(),
            keys: Seq::empty(),
            inherent_included: false,
            config,
        }
    }

    /// One ledger insert. A height already present is left untouched; a new
    /// height is appended, and if that exceeds the capacity the single
    /// oldest entry is evicted from both structures.
    pub open spec fn record(self, height: RelayBlockNumber, root: Hash256) -> PalletModel {
        if self.roots.contains_key(height) {
            self
        } else {
            let roots = self.roots.insert(height, root);
            let keys = self.keys.push(height);
            if keys.len() > self.config.max_storage_roots {
                PalletModel {
                    roots: roots.remove(keys[0]),
                    keys: keys.subrange(1, keys.len() as int),
                    ..self
                }
            } else {
                PalletModel { roots, keys, ..self }
            }
        }
    }

    /// The effect of one successful update operation: the ledger insert of
    /// `record`, and the inclusion guard set.
    pub open spec fn updated(self, height: RelayBlockNumber, root: Hash256) -> PalletModel {
        PalletModel { inherent_included: true, ..self.record(height, root) }
    }

    /// Whether finalization succeeds in this state: the mandatory update
    /// must have run in the current block.
    pub open spec fn finalize_ok(self) -> bool {
        self.inherent_included
    }

    /// The state after a successful finalization: the guard is consumed.
    pub open spec fn finalized(self) -> PalletModel {
        PalletModel { inherent_included: false, ..self }
    }

    /// A whole sequence of ledger inserts, first entry first.
    pub open spec fn run_inserts(self, entries: Seq<StorageRootEntry>) -> PalletModel
        decreases entries.len(),
    {
        if entries.len() == 0 {
            self
        } else {
            self.record(entries[0].0, entries[0].1).run_inserts(
                entries.subrange(1, entries.len() as int),
            )
        }
    }
}

/// `record` (and so the update operation) preserves well-formedness.
pub proof fn lemma_record_preserves_wf(m: PalletModel, height: RelayBlockNumber, root: Hash256)
    requires
        m.wf(),
    ensures
        m.record(height, root).wf(),
        m.updated(height, root).wf(),
{
    if !m.roots.contains_key(height) {
        let keys1 = m.keys.push(height);
        assert(!m.keys.contains(height));
        assert forall|x: RelayBlockNumber| #![auto] keys1.contains(x)
            <==> m.keys.contains(x) || x == height by {
            if keys1.contains(x) {
                let i = choose|i: int| 0 <= i < keys1.len() && keys1[i] == x;
                if i < m.keys.len() {
                    assert(m.keys[i] == x);
                }
            }
            if m.keys.contains(x) {
                let i = choose|i: int| 0 <= i < m.keys.len() && m.keys[i] == x;
                assert(keys1[i] == x);
            }
            if x == height {
                assert(keys1[keys1.len() - 1] == x);
            }
        }
        assert(keys1.no_duplicates()) by {
            assert forall|i: int, j: int|
                0 <= i < keys1.len() && 0 <= j < keys1.len() && i != j implies keys1[i]
                != keys1[j] by {
                if i < m.keys.len() && j < m.keys.len() {
                    assert(m.keys[i] == keys1[i] && m.keys[j] == keys1[j]);
                } else if i < m.keys.len() {
                    assert(m.keys.contains(m.keys[i]));
                } else if j < m.keys.len() {
                    assert(m.keys.contains(m.keys[j]));
                }
            }
        }
        if keys1.len() > m.config.max_storage_roots {
            let evicted = keys1[0];
            let keys2 = keys1.subrange(1, keys1.len() as int);
            assert forall|x: RelayBlockNumber| #![auto] keys2.contains(x)
                <==> keys1.contains(x) && x != evicted by {
                if keys2.contains(x) {
                    let i = choose|i: int| 0 <= i < keys2.len() && keys2[i] == x;
                    assert(keys1[i + 1] == x);
                    assert(keys1[0] != keys1[i + 1]);
                }
                if keys1.contains(x) && x != evicted {
                    let i = choose|i: int| 0 <= i < keys1.len() && keys1[i] == x;
                    assert(i != 0);
                    assert(keys2[i - 1] == x);
                }
            }
            assert(keys2.no_duplicates()) by {
                assert forall|i: int, j: int|
                    0 <= i < keys2.len() && 0 <= j < keys2.len() && i != j implies keys2[i]
                    != keys2[j] by {
                    assert(keys2[i] == keys1[i + 1]);
                    assert(keys2[j] == keys1[j + 1]);
                }
            }
        }
    }
}

/// Appending one entry to a run of inserts is one more `record`.
pub proof fn lemma_run_inserts_push(
    m: PalletModel,
    entries: Seq<StorageRootEntry>,
    e: StorageRootEntry,
)
    ensures
        m.run_inserts(entries.push(e)) == m.run_inserts(entries).record(e.0, e.1),
    decreases entries.len(),
{
    if entries.len() == 0 {
        let s1 = entries.push(e).subrange(1, 1);
        assert(entries.push(e)[0] == e);
        assert(s1 =~= Seq::<StorageRootEntry>::empty());
        assert(m.run_inserts(entries) == m);
        assert(m.record(e.0, e.1).run_inserts(s1) == m.record(e.0, e.1));
    } else {
        let tail = entries.subrange(1, entries.len() as int);
        let s1 = entries.push(e).subrange(1, entries.len() as int + 1);
        assert(entries.push(e)[0] == entries[0]);
        assert(s1 =~= tail.push(e));
        lemma_run_inserts_push(m.record(entries[0].0, entries[0].1), tail, e);
        assert(m.run_inserts(entries.push(e)) == m.record(entries[0].0, entries[0].1).run_inserts(
            s1,
        ));
        assert(m.run_inserts(entries) == m.record(entries[0].0, entries[0].1).run_inserts(tail));
    }
}

/// The shape of a fresh ledger after any sequence of inserts with distinct
/// heights: the queue holds exactly the most recent `min(n, capacity)`
/// heights in arrival order, each mapped to the root it arrived with, the
/// guard is untouched, and the state is well formed.
pub proof fn lemma_fifo_run(config: Config, entries: Seq<StorageRootEntry>)
    requires
        config.max_storage_roots >= 1,
        heights_of(entries).no_duplicates(),
    ensures
        ({
            let m = PalletModel::empty(config).run_inserts(entries);
            let n = entries.len() as int;
            let start = if n <= config.max_storage_roots {
                0int
            } else {
                n - config.max_storage_roots
            };
            &&& m.wf()
            &&& !m.inherent_included
            &&& m.config == config
            &&& m.keys == heights_of(entries).subrange(start, n)
            &&& forall|j: int| #![auto]
                start <= j < n ==> m.roots.contains_key(entries[j].0) && m.roots[entries[j].0]
                    == entries[j].1
        }),
    decreases entries.len(),
{
    let max = config.max_storage_roots as int;
    let m = PalletModel::empty(config).run_inserts(entries);
    let n = entries.len() as int;
    let start = if n <= max {
        0int
    } else {
        n - max
    };
    let hs = heights_of(entries);
    if n == 0 {
        assert(m.keys =~= hs.subrange(start, n));
        assert(m.wf());
    } else {
        let prev = entries.subrange(0, n - 1);
        let e = entries[n - 1];
        let hs_prev = heights_of(prev);
        assert(hs_prev =~= hs.subrange(0, n - 1));
        assert(hs_prev.no_duplicates()) by {
            assert forall|i: int, j: int|
                0 <= i < hs_prev.len() && 0 <= j < hs_prev.len() && i != j implies hs_prev[i]
                != hs_prev[j] by {
                assert(hs_prev[i] == hs[i] && hs_prev[j] == hs[j]);
            }
        }
        lemma_fifo_run(config, prev);
        let m0 = PalletModel::empty(config).run_inserts(prev);
        assert(entries =~= prev.push(e));
        lemma_run_inserts_push(PalletModel::empty(config), prev, e);
        assert(m == m0.record(e.0, e.1));

        let start0 = if n - 1 <= max {
            0int
        } else {
            n - 1 - max
        };
        // The new height is fresh: it is nowhere in the previous queue.
        assert(!m0.roots.contains_key(e.0)) by {
            if m0.keys.contains(e.0) {
                let i = choose|i: int| 0 <= i < m0.keys.len() && m0.keys[i] == e.0;
                assert(hs[start0 + i] == e.0);
                assert(hs[n - 1] == e.0);
                assert(start0 + i < n - 1);
            }
        }
        let keys1 = m0.keys.push(e.0);
        let roots1 = m0.roots.insert(e.0, e.1);
        if keys1.len() > max {
            // The previous queue was full: the oldest height is evicted.
            assert(m0.keys.len() == max);
            let evicted = keys1[0];
            assert(evicted == hs[start0]);
            assert(m.keys =~= hs.subrange(start, n)) by {
                assert(start == start0 + 1);
                assert forall|i: int| 0 <= i < max implies keys1.subrange(1, keys1.len() as int)[i]
                    == hs.subrange(start, n)[i] by {
                    if i < max - 1 {
                        assert(keys1[i + 1] == m0.keys[i + 1]);
                        assert(m0.keys[i + 1] == hs[start0 + i + 1]);
                    } else {
                        assert(keys1[i + 1] == e.0);
                        assert(hs[n - 1] == e.0);
                    }
                }
            }
            assert forall|j: int| #![auto] start <= j < n implies m.roots.contains_key(
                entries[j].0,
            ) && m.roots[entries[j].0] == entries[j].1 by {
                assert(hs[j] == entries[j].0);
                assert(hs[start0] == evicted);
                assert(entries[j].0 != evicted);
                if j < n - 1 {
                    assert(m0.roots.contains_key(entries[j].0) && m0.roots[entries[j].0]
                        == entries[j].1);
                    assert(entries[j].0 != e.0) by {
                        assert(hs[j] != hs[n - 1]);
                    }
                }
            }
        } else {
            assert(start == 0 && start0 == 0);
            assert(m.keys =~= hs.subrange(start, n)) by {
                assert forall|i: int| 0 <= i < n implies keys1[i] == hs[i] by {
                    if i < n - 1 {
                        assert(keys1[i] == m0.keys[i]);
                        assert(m0.keys[i] == hs_prev.subrange(start0, n - 1)[i]);
                    } else {
                        assert(hs[n - 1] == e.0);
                    }
                }
            }
            assert forall|j: int| #![auto] start <= j < n implies m.roots.contains_key(
                entries[j].0,
            ) && m.roots[entries[j].0] == entries[j].1 by {
                if j < n - 1 {
                    assert(entries[j].0 != e.0) by {
                        assert(hs[j] != hs[n - 1]);
                    }
                }
            }
        }
        lemma_record_preserves_wf(m0, e.0, e.1);
    }
}

/// Capacity invariant: inserting any sequence of distinct heights into a
/// fresh ledger leaves, after each insert, exactly
/// `min(inserts so far, max_storage_roots)` entries in the mapping and in
/// the queue alike.
pub proof fn lemma_capacity_invariant(config: Config, entries: Seq<StorageRootEntry>, i: int)
    requires
        config.max_storage_roots >= 1,
        heights_of(entries).no_duplicates(),
        0 <= i <= entries.len(),
    ensures
        ({
            let m = PalletModel::empty(config).run_inserts(entries.subrange(0, i));
            &&& m.keys.len() == vstd::math::min(i, config.max_storage_roots as int)
            &&& m.roots.dom().len() == m.keys.len()
        }),
{
    let prefix = entries.subrange(0, i);
    let hs = heights_of(entries);
    let hs_prefix = heights_of(prefix);
    assert(hs_prefix =~= hs.subrange(0, i));
    assert(hs_prefix.no_duplicates()) by {
        assert forall|a: int, b: int|
            0 <= a < hs_prefix.len() && 0 <= b < hs_prefix.len() && a != b implies hs_prefix[a]
            != hs_prefix[b] by {
            assert(hs_prefix[a] == hs[a] && hs_prefix[b] == hs[b]);
        }
    }
    lemma_fifo_run(config, prefix);
    let m = PalletModel::empty(config).run_inserts(prefix);
    assert(m.keys.len() == vstd::math::min(i, config.max_storage_roots as int));
    assert(m.roots.dom() =~= m.keys.to_set()) by {
        assert forall|h: RelayBlockNumber| #![auto] m.roots.dom().contains(h)
            <==> m.keys.to_set().contains(h) by {
            assert(m.keys.to_set().contains(h) <==> m.keys.contains(h));
        }
    }
    m.keys.unique_seq_to_set();
}

/// Oldest-evicted: when heights arrive in strictly increasing order and more
/// of them were inserted than the capacity `M`, the fresh ledger afterwards
/// contains exactly the most recent `M` heights, in arrival order, each with
/// the root it arrived with.
pub proof fn lemma_oldest_evicted(config: Config, entries: Seq<StorageRootEntry>)
    requires
        config.max_storage_roots >= 1,
        forall|i: int, j: int| #![auto]
            0 <= i < j < entries.len() ==> entries[i].0 < entries[j].0,
        entries.len() > config.max_storage_roots,
    ensures
        ({
            let m = PalletModel::empty(config).run_inserts(entries);
            let n = entries.len() as int;
            let start = n - config.max_storage_roots;
            &&& m.keys == heights_of(entries).subrange(start, n)
            &&& forall|h: RelayBlockNumber| #![auto]
                m.roots.contains_key(h) <==> exists|j: int|
                    start <= j < n && entries[j].0 == h
            &&& forall|j: int| #![auto] start <= j < n ==> m.roots[entries[j].0] == entries[j].1
        }),
{
    let hs = heights_of(entries);
    assert(hs.no_duplicates()) by {
        assert forall|i: int, j: int|
            0 <= i < hs.len() && 0 <= j < hs.len() && i != j implies hs[i] != hs[j] by {
            assert(hs[i] == entries[i].0 && hs[j] == entries[j].0);
        }
    }
    lemma_fifo_run(config, entries);
    let m = PalletModel::empty(config).run_inserts(entries);
    let n = entries.len() as int;
    let start = n - config.max_storage_roots;
    assert forall|h: RelayBlockNumber| #![auto] m.roots.contains_key(h) implies exists|j: int|
        start <= j < n && entries[j].0 == h by {
        assert(m.keys.contains(h));
        let i = choose|i: int| 0 <= i < m.keys.len() && m.keys[i] == h;
        assert(hs[start + i] == h);
        assert(entries[start + i].0 == h);
    }
}

/// Idempotent re-insert: a second update at a height already present leaves
/// the whole state unchanged; the root stored for that height is the first
/// one recorded, never the later one.
pub proof fn lemma_idempotent_reinsert(
    m: PalletModel,
    height: RelayBlockNumber,
    r1: Hash256,
    r2: Hash256,
)
    requires
        m.wf(),
    ensures
        ({
            let m1 = m.updated(height, r1);
            &&& m1.updated(height, r2) == m1
            &&& m1.roots[height] == if m.roots.contains_key(height) {
                m.roots[height]
            } else {
                r1
            }
        }),
{
    let m1 = m.updated(height, r1);
    if !m.roots.contains_key(height) {
        let keys1 = m.keys.push(height);
        if keys1.len() > m.config.max_storage_roots {
            // The evicted key is an old one, never the height just added.
            assert(m.keys.len() >= 1);
            assert(keys1[0] == m.keys[0]);
            assert(m.keys.contains(m.keys[0]));
        }
    }
    assert(m1.roots.contains_key(height));
    assert(m1.updated(height, r2) =~= m1);
}

/// Mandatory inherent: in a fresh block (guard unset) finalization fails
/// until the update runs; after exactly one update it succeeds, clears the
/// guard, and keeps the update's ledger effect.
pub proof fn lemma_mandatory_inherent(m: PalletModel, height: RelayBlockNumber, root: Hash256)
    requires
        !m.inherent_included,
    ensures
        !m.finalize_ok(),
        m.updated(height, root).finalize_ok(),
        !m.updated(height, root).finalized().inherent_included,
        m.updated(height, root).finalized().roots == m.record(height, root).roots,
        m.updated(height, root).finalized().keys == m.record(height, root).keys,
{
}

} // verus!
