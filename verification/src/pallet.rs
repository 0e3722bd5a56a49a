//! The executable pallet: the bounded root ledger, the per-block inclusion
//! guard, the block lifecycle hooks, and the inherent-protocol entry points.

use std::collections::HashMap;
use std::collections::VecDeque;
use vstd::prelude::*;

use crate::inherent::Call;
use crate::inherent::InherentError;
use crate::ledger::lemma_record_preserves_wf;
use crate::ledger::PalletModel;
use crate::Config;
use crate::Hash256;
use crate::RelayBlockNumber;
use crate::ValidationInput;

verus! {

broadcast use vstd::std_specs::hash::group_hash_axioms;

/// The origin class a dispatched operation carries. The update operation is
/// an inherent and accepts only the unsigned ("none") origin.
#[derive(Clone, Copy, PartialEq, Eq, Structural, Debug)]
pub enum Origin {
    Root,
    Signed,
    Unsigned,
}

/// How the host scheduler classifies a dispatched operation. The update
/// operation is mandatory: a block is invalid without it.
#[derive(Clone, Copy, PartialEq, Eq, Structural, Debug)]
pub enum DispatchClass {
    Normal,
    Mandatory,
}

/// Whether the caller is charged a fee for the dispatched operation.
#[derive(Clone, Copy, PartialEq, Eq, Structural, Debug)]
pub enum Pays {
    Yes,
    No,
}

/// What a successful dispatch reports back to the host scheduler.
#[derive(Clone, Copy, PartialEq, Eq, Structural, Debug)]
pub struct PostInfo {
    pub pays_fee: Pays,
}

/// Why a dispatch was rejected.
#[derive(Clone, Copy, PartialEq, Eq, Structural, Debug)]
pub enum DispatchError {
    BadOrigin,
}

/// The pallet's domain errors. `RequestCounterOverflowed` is declared but
/// raised by no path of the current logic; it is reserved.
#[derive(Clone, Copy, PartialEq, Eq, Structural, Debug)]
pub enum Error {
    RequestCounterOverflowed,
}

/// The pallet's events. `RequestExpirationExecuted` is declared but emitted
/// by no path of the current logic; it is reserved.
#[derive(Clone, Copy, PartialEq, Eq, Structural, Debug)]
pub enum Event {
    RequestExpirationExecuted { id: u8 },
}

/// The pallet: a mapping from relay block height to storage root, the
/// arrival-order queue of its keys (used to evict the oldest entry without
/// scanning the mapping), and the per-block inclusion guard.
pub struct Pallet {
    config: Config,
    relay_storage_root: HashMap<RelayBlockNumber, Hash256>,
    relay_storage_root_keys: VecDeque<RelayBlockNumber>,
    inherent_included: bool,
}

impl View for Pallet {
    type V = PalletModel;

    closed spec fn view(&self) -> PalletModel {
        PalletModel {
            roots: self.relay_storage_root@,
            keys: self.relay_storage_root_keys@,
            inherent_included: self.inherent_included,
            config: self.config,
        }
    }
}

impl Pallet {
    /// A fresh pallet for the given configuration: nothing recorded, guard unset.
    pub fn new(config: Config) -> (p: Pallet)
        requires
            config.max_storage_roots >= 1,
        ensures
            p@ == PalletModel::empty(config),
            p@.wf(),
    {
        let p = Pallet {
            config,
            relay_storage_root: HashMap::new(),
            relay_storage_root_keys: VecDeque::new(),
            inherent_included: false,
        };
        proof {
            assert(p@ =~= PalletModel::empty(config));
            assert(p@.wf());
        }
        p
    }

    /// Populates the ledger from this block's validation data and sets the
    /// inclusion guard. Only the unsigned origin may dispatch it; a height
    /// already present is never overwritten (the call is then a no-op on the
    /// ledger); a new height is appended, evicting the oldest entry if the
    /// capacity would otherwise be exceeded. Success is always fee-free.
    pub fn set_relay_storage_root(&mut self, origin: Origin, validation_data: ValidationInput) -> (r:
        Result<PostInfo, DispatchError>)
        requires
            old(self)@.wf(),
        ensures
            final(self)@.wf(),
            origin == Origin::Unsigned ==> r == Ok::<PostInfo, DispatchError>(
                (PostInfo { pays_fee: Pays::No }),
            ) && final(self)@ == old(self)@.updated(
                validation_data.relay_parent_number,
                validation_data.relay_parent_storage_root,
            ),
            origin != Origin::Unsigned ==> r == Err::<PostInfo, DispatchError>(
                DispatchError::BadOrigin,
            ) && final(self)@ == old(self)@,
            r matches Ok(info) ==> info.pays_fee == Pays::No,
    {
        match origin {
            Origin::Unsigned => {},
            _ => {
                return Err(DispatchError::BadOrigin);
            },
        }
        let height = validation_data.relay_parent_number;
        let root = validation_data.relay_parent_storage_root;
        let ghost m0 = self@;

        if self.relay_storage_root.contains_key(&height) {
            self.inherent_included = true;
            proof {
                assert(self@ =~= m0.updated(height, root));
                lemma_record_preserves_wf(m0, height, root);
            }
            return Ok(PostInfo { pays_fee: Pays::No });
        }

        self.relay_storage_root.insert(height, root);
        self.relay_storage_root_keys.push_back(height);

        // Delete the oldest stored root if the total exceeds the capacity.
        // At most one eviction is needed: one insert exceeds it by at most one.
        if self.relay_storage_root_keys.len() > self.config.max_storage_roots as usize {
            let first_key = self.relay_storage_root_keys.pop_front().unwrap();
            self.relay_storage_root.remove(&first_key);
        }

        self.inherent_included = true;
        proof {
            assert(self@ =~= m0.updated(height, root));
            lemma_record_preserves_wf(m0, height, root);
        }
        Ok(PostInfo { pays_fee: Pays::No })
    }

    /// The declared dispatch info of the update operation, for the host
    /// scheduler: the configured cost estimate, and the mandatory class.
    pub fn set_relay_storage_root_dispatch_info(&self) -> (r: (u64, DispatchClass))
        ensures
            r == (self@.config.set_relay_storage_root_weight, DispatchClass::Mandatory),
    {
        (self.config.set_relay_storage_root_weight, DispatchClass::Mandatory)
    }

    /// Pure read of a recorded storage root: absent if the height was never
    /// recorded or was already evicted.
    pub fn relay_storage_root(&self, relay_block_number: RelayBlockNumber) -> (r: Option<Hash256>)
        ensures
            r == if self@.roots.contains_key(relay_block_number) {
                Some(self@.roots[relay_block_number])
            } else {
                Option::<Hash256>::None
            },
    {
        match self.relay_storage_root.get(&relay_block_number) {
            Some(root) => Some(*root),
            _ => Option::<Hash256>::None,
        }
    }

    /// The heights currently present, oldest first.
    pub fn relay_storage_root_keys(&self) -> (r: Vec<RelayBlockNumber>)
        ensures
            r@ == self@.keys,
    {
        let mut out: Vec<RelayBlockNumber> = Vec::new();
        let n = self.relay_storage_root_keys.len();
        let mut i: usize = 0;
        while i < n
            invariant
                i <= n,
                n == self@.keys.len(),
                out@ == self@.keys.subrange(0, i as int),
            decreases n - i,
        {
            out.push(self.relay_storage_root_keys[i]);
            i += 1;
            proof {
                assert(out@ =~= self@.keys.subrange(0, i as int));
            }
        }
        proof {
            assert(out@ =~= self@.keys);
        }
        out
    }

    /// Mirrors the inclusion guard: whether the mandatory update has already
    /// executed in the current block.
    pub fn inherent_included(&self) -> (r: bool)
        ensures
            r == self@.inherent_included,
    {
        self.inherent_included
    }

    /// Block-start hook. Reports the fixed, declared upper-bound cost of the
    /// finalization check (one database read and one write), whatever branch
    /// finalization later takes. It does not touch the state.
    pub fn on_initialize(&self, _now: u32) -> (w: u64)
        ensures
            w == self@.config.db_read_weight as nat + self@.config.db_write_weight as nat
                || (self@.config.db_read_weight as nat + self@.config.db_write_weight as nat
                > u64::MAX && w == u64::MAX),
    {
        self.config.db_read_weight.saturating_add(self.config.db_write_weight)
    }

    /// Block-end hook: consumes the inclusion guard. If the mandatory update
    /// never ran in this block, the block is invalid and a fatal error is
    /// returned; otherwise the guard is cleared and the block finalizes.
    pub fn on_finalize(&mut self, _now: u32) -> (r: Result<(), InherentError>)
        ensures
            old(self)@.finalize_ok() ==> r is Ok && final(self)@ == old(self)@.finalized(),
            !old(self)@.finalize_ok() ==> r is Err && final(self)@ == old(self)@,
            r matches Err(e) ==> e matches InherentError::Other(m)
                && m@ == "Mandatory relay storage roots inherent not included"@,
    {
        if self.inherent_included {
            self.inherent_included = false;
            proof {
                assert(self@ =~= old(self)@.finalized());
            }
            Ok(())
        } else {
            Err(InherentError::Other("Mandatory relay storage roots inherent not included".to_owned()))
        }
    }

    /// Deterministically fills a fresh ledger to its capacity, the worst case
    /// for the update operation, so its bounded cost can be measured: heights
    /// `0..max_storage_roots` are recorded in order, each with the given
    /// root, and the guard ends set. No eviction happens during the fill.
    pub fn fill_relay_storage_roots(&mut self, root: Hash256)
        requires
            old(self)@.wf(),
            old(self)@.keys.len() == 0,
        ensures
            final(self)@.wf(),
            final(self)@.config == old(self)@.config,
            final(self)@.keys == Seq::new(
                old(self)@.config.max_storage_roots as nat,
                |k: int| k as u32,
            ),
            forall|j: u32|
                j < old(self)@.config.max_storage_roots ==> (#[trigger] final(self)@.roots.contains_key(j))
                    && final(self)@.roots[j] == root,
            final(self)@.inherent_included,
    {
        let max = self.config.max_storage_roots;
        proof {
            assert(self@.keys =~= Seq::new(0nat, |k: int| k as u32));
        }
        let mut i: u32 = 0;
        while i < max
            invariant
                self@.wf(),
                i <= max,
                max == self@.config.max_storage_roots,
                self@.config == old(self)@.config,
                self@.keys == Seq::new(i as nat, |k: int| k as u32),
                forall|j: u32|
                    j < i ==> #[trigger] self@.roots.contains_key(j) && self@.roots[j] == root,
                i > 0 ==> self@.inherent_included,
            decreases max - i,
        {
            let ghost prev = self@;
            let vd = ValidationInput {
                relay_parent_number: i,
                relay_parent_storage_root: root,
            };
            let r = self.set_relay_storage_root(Origin::Unsigned, vd);
            proof {
                assert(r is Ok);
                // The height is fresh: every queued height is smaller.
                assert(!prev.keys.contains(i)) by {
                    if prev.keys.contains(i) {
                        let k = choose|k: int| 0 <= k < prev.keys.len() && prev.keys[k] == i;
                        assert(prev.keys[k] == k as u32);
                    }
                }
                assert(!prev.roots.contains_key(i));
                // The queue stays within capacity, so nothing is evicted.
                assert(prev.keys.push(i).len() <= max);
                assert(self@.roots == prev.roots.insert(i, root));
                assert(self@.keys =~= Seq::new((i + 1) as nat, |k: int| k as u32));
                assert forall|j: u32|
                    j < i + 1 implies #[trigger] self@.roots.contains_key(j) && self@.roots[j]
                    == root by {
                    if j < i {
                        assert(prev.roots.contains_key(j) && prev.roots[j] == root);
                        assert(j != i);
                    }
                }
            }
            i += 1;
        }
    }

    /// Inherent-protocol contract: this pallet's inherent is unconditionally
    /// required in every block, with a fixed descriptive error payload for a
    /// block produced without it.
    pub fn is_inherent_required() -> (r: Result<Option<InherentError>, InherentError>)
        ensures
            r matches Ok(e) && e matches Some(e) && e matches InherentError::Other(m)
                && m@ == "Inherent required to set relay storage roots"@,
    {
        Ok(Some(InherentError::Other("Inherent required to set relay storage roots".to_owned())))
    }

    /// Inherent-protocol contract: the zero-argument update operation is
    /// always constructed; no external data is needed to build the call.
    pub fn create_inherent() -> (r: Option<Call>)
        ensures
            r == Some(Call::SetRelayStorageRoot),
    {
        Some(Call::SetRelayStorageRoot)
    }

    /// Inherent-protocol contract: recognizes the update operation among a
    /// block's operations, so the host can exempt it from fee and ordering
    /// rules that apply to user transactions.
    pub fn is_inherent(call: &Call) -> (r: bool)
        ensures
            r == (call matches Call::SetRelayStorageRoot),
    {
        matches!(call, Call::SetRelayStorageRoot)
    }
}

} // verus!
