//! The in-memory session cell: the one shared-mutable value of the client.
//!
//! The cell has exclusive write access and hands out consistent snapshots:
//! a commit installs credential and profile at once, so no reader ever
//! observes one without the other.  Every mutation is applied in memory
//! first and then persisted best-effort — a storage failure is reported
//! for logging and never invalidates the in-memory session.

use vstd::prelude::*;
use crate::codec::encode_session_spec;
use crate::codec::lemma_decode_encode;
use crate::errors::StorageError;
use crate::model::Credential;
use crate::model::Profile;
use crate::model::Session;
use crate::model::SessionV;
use crate::store::PersistentStore;

verus! {

/// The versioned session cell.  Created once at application start, mutated
/// only by a successful login (`commit`) and by logout (`reset`).
pub struct SessionCell {
    session: Session,
    version: u64,
}

impl View for SessionCell {
    type V = SessionV;

    closed spec fn view(&self) -> SessionV {
        self.session@
    }
}

impl SessionCell {
    pub closed spec fn wf(self) -> bool {
        self.session.wf()
    }

    /// How many mutations the cell has seen.
    pub closed spec fn version(self) -> u64 {
        self.version
    }

    /// Installs the persisted session verbatim, or the logged-out default
    /// where nothing usable is stored.  The credential is deliberately not
    /// re-verified against the server here: a stale persisted credential
    /// surfaces as an authorization failure on its first use, not at boot.
    pub fn bootstrap(store: &PersistentStore) -> (c: SessionCell)
        requires
            store.wf(),
        ensures
            c.wf(),
            c.version() == 0,
            match store.loaded() {
                Some(v) => c@ == v,
                None => c@ == SessionV::logged_out_spec(),
            },
    {
        let session = match store.load() {
            Some(s) => s,
            None => Session::logged_out(),
        };
        SessionCell { session, version: 0 }
    }

    /// The current session snapshot.  Reading is free of side effects and
    /// never re-fetches anything.
    pub fn current(&self) -> (s: &Session)
        ensures
            s@ == self@,
            self.wf() ==> s.wf(),
    {
        &self.session
    }

    /// Installs a credential and the profile it resolved to, both at once,
    /// then persists the new record.  Immediately after a commit the
    /// current session holds exactly this credential and profile — never a
    /// partial state — whether or not the persistence write succeeded.
    pub fn commit(
        &mut self,
        store: &mut PersistentStore,
        credential: Credential,
        profile: Profile,
    ) -> (r: Result<(), StorageError>)
        requires
            old(self).wf(),
            old(store).wf(),
            credential.wf(),
            profile.wf(),
            old(self).version() < u64::MAX,
        ensures
            final(self).wf(),
            final(store).wf(),
            final(self)@.credential == Some(credential@),
            final(self)@.profile == Some(profile@),
            final(self).version() == old(self).version() + 1,
            final(store).kv.writable() == old(store).kv.writable(),
            old(store).kv.writable() ==> r is Ok && final(store).loaded() == Some(
                final(self)@,
            ),
            !old(store).kv.writable() ==> r == Result::<(), StorageError>::Err(
                StorageError::WriteFailed,
            ) && final(store).kv@ == old(store).kv@,
    {
        self.session = Session { credential: Some(credential), profile: Some(profile) };
        self.version = self.version + 1;
        store.save(&self.session)
    }

    /// Logs out: both session components become absent at once, and the
    /// logged-out record is persisted.  As with `commit`, a storage
    /// failure leaves the in-memory state valid.
    pub fn reset(&mut self, store: &mut PersistentStore) -> (r: Result<(), StorageError>)
        requires
            old(self).wf(),
            old(store).wf(),
            old(self).version() < u64::MAX,
        ensures
            final(self).wf(),
            final(store).wf(),
            final(self)@ == SessionV::logged_out_spec(),
            final(self).version() == old(self).version() + 1,
            final(store).kv.writable() == old(store).kv.writable(),
            old(store).kv.writable() ==> r is Ok && final(store).loaded() == Some(
                SessionV::logged_out_spec(),
            ),
            !old(store).kv.writable() ==> r == Result::<(), StorageError>::Err(
                StorageError::WriteFailed,
            ) && final(store).kv@ == old(store).kv@,
    {
        self.session = Session::logged_out();
        self.version = self.version + 1;
        store.save(&self.session)
    }
}

/// A store holding the record that `reset` writes loads back as the
/// logged-out default session: resetting and reloading round-trips to the
/// same state the application started from.
pub proof fn lemma_reset_record_loads_logged_out(store: PersistentStore)
    requires
        store.kv@.contains_key(PersistentStore::record_key()),
        store.kv@[PersistentStore::record_key()] == encode_session_spec(
            SessionV::logged_out_spec(),
        ),
    ensures
        store.loaded() == Some(SessionV::logged_out_spec()),
{
    lemma_decode_encode(SessionV::logged_out_spec());
}

} // verus!
