//! Key-reactive, memoized, asynchronous resource cells.
//!
//! A cell resolves one remote resource.  Its key is recomputed by the
//! surrounding runtime on every reactive tick; when the key value changes
//! the cell discards whatever it held, turns pending, and hands out a
//! ticket naming the new key generation, with which the runtime starts a
//! fetch.  A completed fetch is applied only while its generation is still
//! current: a late response for a superseded key is dropped rather than
//! overwriting a later result.  While the key is unchanged, reads return
//! the same memoized state and no fetch is started.

use vstd::prelude::*;
use vstd::std_specs::cmp::PartialEqSpec;

verus! {

/// The three-state result of a resource fetch: still pending, ready with
/// a value, or failed with a message local to this cell.
pub enum CellState<V> {
    Pending,
    Ready(V),
    Failed(String),
}

/// The receipt handed out when a fetch starts.  It names the key
/// generation the fetch belongs to; only the current generation's receipt
/// can deliver a result.
pub struct FetchTicket {
    epoch: u64,
}

impl FetchTicket {
    pub closed spec fn epoch(self) -> u64 {
        self.epoch
    }
}

/// One reactive fetch unit, keyed by `K` under value equality.  Cells
/// share no state with each other.
pub struct ResourceCell<K, V> {
    key: K,
    state: CellState<V>,
    epoch: u64,
    applied: Ghost<Seq<u64>>,
}

impl<K: PartialEq, V> ResourceCell<K, V> {
    /// The current key value.
    pub closed spec fn key(self) -> K {
        self.key
    }

    /// The current three-state result.
    pub closed spec fn state(self) -> CellState<V> {
        self.state
    }

    /// The current key generation; it moves only when the key changes.
    pub closed spec fn epoch(self) -> u64 {
        self.epoch
    }

    /// The generations whose fetch results were applied, in order.
    pub closed spec fn applied_log(self) -> Seq<u64> {
        self.applied@
    }

    /// The cell invariant: applied generations are strictly increasing and
    /// never ahead of the current one, and the cell has left `Pending`
    /// exactly when the current generation's result was applied.
    pub open spec fn wf(self) -> bool {
        &&& forall|i: int, j: int|
            0 <= i < j < self.applied_log().len() ==> #[trigger] self.applied_log()[i]
                < #[trigger] self.applied_log()[j]
        &&& forall|i: int|
            0 <= i < self.applied_log().len() ==> #[trigger] self.applied_log()[i]
                <= self.epoch()
        &&& !(self.state() is Pending) <==> (self.applied_log().len() > 0
            && self.applied_log().last() == self.epoch())
    }

    /// A fresh cell for an initial key: pending, with the fetch for
    /// generation zero to be started with the returned ticket.
    pub fn new(key: K) -> (r: (ResourceCell<K, V>, FetchTicket))
        ensures
            r.0.wf(),
            r.0.key() == key,
            r.0.state() is Pending,
            r.0.epoch() == 0,
            r.0.applied_log() == Seq::<u64>::empty(),
            r.1.epoch() == 0,
    {
        let cell = ResourceCell {
            key,
            state: CellState::Pending,
            epoch: 0,
            applied: Ghost(Seq::empty()),
        };
        (cell, FetchTicket { epoch: 0 })
    }

    /// The memoized state.  Reading has no effect: reading a ready cell
    /// any number of times before the key changes yields the same value
    /// and starts no fetch.
    pub fn read(&self) -> (s: &CellState<V>)
        ensures
            *s == self.state(),
    {
        &self.state
    }

    /// Feeds the freshly computed key value in.  An unchanged key leaves
    /// the cell untouched and starts nothing; a changed key discards the
    /// previous state, turns the cell pending, and returns the ticket of
    /// the new generation, with which the runtime starts the fetch.
    pub fn set_key(&mut self, new_key: K) -> (t: Option<FetchTicket>)
        requires
            old(self).wf(),
            K::obeys_eq_spec(),
            old(self).epoch() < u64::MAX,
        ensures
            final(self).wf(),
            old(self).key().eq_spec(&new_key) ==> t is None && *final(self) == *old(self),
            !old(self).key().eq_spec(&new_key) ==> {
                &&& t matches Some(tk) && tk.epoch() == final(self).epoch()
                &&& final(self).epoch() == old(self).epoch() + 1
                &&& final(self).key() == new_key
                &&& final(self).state() is Pending
                &&& final(self).applied_log() == old(self).applied_log()
            },
    {
        if self.key == new_key {
            None
        } else {
            self.key = new_key;
            self.state = CellState::Pending;
            self.epoch = self.epoch + 1;
            Some(FetchTicket { epoch: self.epoch })
        }
    }

    /// Delivers a completed fetch.  The result is applied only if the
    /// ticket's generation is still current and no result was applied for
    /// it yet — otherwise the response is superseded and dropped whole,
    /// never mixed into a later state.
    pub fn apply(&mut self, ticket: FetchTicket, result: Result<V, String>) -> (applied: bool)
        requires
            old(self).wf(),
        ensures
            final(self).wf(),
            applied <==> (ticket.epoch() == old(self).epoch() && old(self).state() is Pending),
            !applied ==> *final(self) == *old(self),
            applied ==> {
                &&& final(self).key() == old(self).key()
                &&& final(self).epoch() == old(self).epoch()
                &&& (result matches Ok(v) ==> final(self).state() == CellState::<V>::Ready(v))
                &&& (result matches Err(e) ==> final(self).state() == CellState::<V>::Failed(
                    e,
                ))
                &&& final(self).applied_log() == old(self).applied_log().push(
                    old(self).epoch(),
                )
            },
    {
        let is_pending = match &self.state {
            CellState::Pending => true,
            _ => false,
        };
        if ticket.epoch == self.epoch && is_pending {
            self.state = match result {
                Ok(v) => CellState::Ready(v),
                Err(e) => CellState::Failed(e),
            };
            proof {
                self.applied@ = self.applied@.push(self.epoch);
            }
            true
        } else {
            false
        }
    }
}

/// The superseded-result guard, over any sequence of key changes: each
/// applied result belongs to a distinct key generation no later than the
/// current one, and `apply` admits a result only while its generation is
/// still current and pending.  So the number of results ever applied
/// equals the number of generations whose fetch resolved while that
/// generation was still the current one — never more than one per key
/// change.
pub proof fn lemma_applied_once_per_generation<K: PartialEq, V>(cell: ResourceCell<K, V>)
    requires
        cell.wf(),
    ensures
        forall|i: int, j: int|
            0 <= i < j < cell.applied_log().len() ==> #[trigger] cell.applied_log()[i]
                != #[trigger] cell.applied_log()[j],
        forall|i: int|
            0 <= i < cell.applied_log().len() ==> #[trigger] cell.applied_log()[i]
                <= cell.epoch(),
{
}

/// A manually toggled extra key component, used to force a cell to
/// re-fetch without changing its semantic key.  Its one contract is that
/// toggling makes the value observably different from its previous value,
/// so a composite key containing it compares as changed.
pub struct RefreshToken {
    flag: bool,
}

impl RefreshToken {
    pub closed spec fn value_spec(self) -> bool {
        self.flag
    }

    pub fn new() -> (t: RefreshToken)
        ensures
            t.value_spec() == false,
    {
        RefreshToken { flag: false }
    }

    /// The current value, for use as a key component.
    pub fn value(&self) -> (b: bool)
        ensures
            b == self.value_spec(),
    {
        self.flag
    }

    /// Flips the token: the new value always differs from the old one.
    pub fn toggle(&mut self)
        ensures
            final(self).value_spec() == !old(self).value_spec(),
    {
        self.flag = !self.flag;
    }
}

} // verus!
