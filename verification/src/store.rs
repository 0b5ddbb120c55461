//! In-memory model of the client's key/value storage.
//!
//! The browser's storage is a collaborator with a plain get/set/clear
//! surface; this module holds its observable state as a map from key to
//! value, together with a write-failure mode that stands for quota
//! exhaustion or disabled storage.  Everything the session core guarantees
//! about persistence is proved against this model; the thin binding to the
//! real storage lives outside the library.

use vstd::prelude::*;
use crate::codec::decode_session;
use crate::codec::decode_session_spec;
use crate::codec::encode_session;
use crate::codec::encode_session_spec;
use crate::errors::StorageError;
use crate::model::Session;
use crate::model::SessionV;

verus! {

/// The map held by a sequence of key/value entries; later entries take
/// precedence, though a well-formed store never repeats a key.
pub open spec fn entries_map(es: Seq<(String, String)>) -> Map<Seq<char>, Seq<char>>
    decreases es.len(),
{
    if es.len() == 0 {
        Map::empty()
    } else {
        entries_map(es.drop_last()).insert(es.last().0@, es.last().1@)
    }
}

/// No two entries share a key.
pub open spec fn entries_unique(es: Seq<(String, String)>) -> bool {
    forall|i: int, j: int| 0 <= i < j < es.len() ==> es[i].0@ != es[j].0@
}

proof fn lemma_entries_map_index(es: Seq<(String, String)>, i: int)
    requires
        entries_unique(es),
        0 <= i < es.len(),
    ensures
        entries_map(es).contains_key(es[i].0@),
        entries_map(es)[es[i].0@] == es[i].1@,
    decreases es.len(),
{
    if i < es.len() - 1 {
        assert(es.drop_last()[i] == es[i]);
        lemma_entries_map_index(es.drop_last(), i);
    }
}

proof fn lemma_entries_map_absent(es: Seq<(String, String)>, k: Seq<char>)
    requires
        forall|j: int| 0 <= j < es.len() ==> es[j].0@ != k,
    ensures
        !entries_map(es).contains_key(k),
    decreases es.len(),
{
    if es.len() > 0 {
        lemma_entries_map_absent(es.drop_last(), k);
    }
}

proof fn lemma_entries_map_update(es: Seq<(String, String)>, i: int, p: (String, String))
    requires
        entries_unique(es),
        0 <= i < es.len(),
        p.0@ == es[i].0@,
    ensures
        entries_map(es.update(i, p)) =~= entries_map(es).insert(p.0@, p.1@),
    decreases es.len(),
{
    let es2 = es.update(i, p);
    if i == es.len() - 1 {
        assert(es2.drop_last() =~= es.drop_last());
    } else {
        assert(es2.drop_last() =~= es.drop_last().update(i, p));
        lemma_entries_map_update(es.drop_last(), i, p);
        assert(es.drop_last()[i] == es[i]);
        assert(es.last().0@ != p.0@);
    }
}

/// The key/value storage model: an association list with unique keys and a
/// flag saying whether writes currently succeed.
pub struct KvStore {
    entries: Vec<(String, String)>,
    accepts_writes: bool,
}

impl View for KvStore {
    type V = Map<Seq<char>, Seq<char>>;

    closed spec fn view(&self) -> Map<Seq<char>, Seq<char>> {
        entries_map(self.entries@)
    }
}

impl KvStore {
    pub closed spec fn wf(self) -> bool {
        entries_unique(self.entries@)
    }

    /// Whether a write would currently be accepted.
    pub closed spec fn writable(self) -> bool {
        self.accepts_writes
    }

    /// An empty, healthy store.
    pub fn new() -> (s: KvStore)
        ensures
            s.wf(),
            s@ == Map::<Seq<char>, Seq<char>>::empty(),
            s.writable(),
    {
        KvStore { entries: Vec::new(), accepts_writes: true }
    }

    pub fn is_writable(&self) -> (b: bool)
        ensures
            b == self.writable(),
    {
        self.accepts_writes
    }

    /// Switches simulated write failure (quota exhausted, storage disabled)
    /// on or off; the stored contents are untouched.
    pub fn set_write_failure(&mut self, fail: bool)
        requires
            old(self).wf(),
        ensures
            final(self).wf(),
            final(self)@ == old(self)@,
            final(self).writable() == !fail,
    {
        self.accepts_writes = !fail;
    }

    /// Looks a key up; `None` exactly where the key is absent.
    pub fn get(&self, key: &String) -> (r: Option<&String>)
        requires
            self.wf(),
        ensures
            r matches Some(v) ==> self@.contains_key(key@) && v@ == self@[key@],
            r is None ==> !self@.contains_key(key@),
    {
        let n = self.entries.len();
        let mut i: usize = 0;
        while i < n
            invariant
                self.wf(),
                n == self.entries.len(),
                forall|j: int| 0 <= j < i ==> self.entries@[j].0@ != key@,
            decreases n - i,
        {
            let pair = &self.entries[i];
            if pair.0 == *key {
                proof {
                    lemma_entries_map_index(self.entries@, i as int);
                }
                return Some(&pair.1);
            }
            i = i + 1;
        }
        proof {
            lemma_entries_map_absent(self.entries@, key@);
        }
        None
    }

    /// Writes a key.  When the store accepts writes the map gains (or
    /// replaces) the binding; when it does not, the store is unchanged and
    /// the failure is reported.
    pub fn set(&mut self, key: String, value: String) -> (r: Result<(), StorageError>)
        requires
            old(self).wf(),
        ensures
            final(self).wf(),
            final(self).writable() == old(self).writable(),
            old(self).writable() ==> r is Ok && final(self)@ == old(self)@.insert(
                key@,
                value@,
            ),
            !old(self).writable() ==> r == Result::<(), StorageError>::Err(
                StorageError::WriteFailed,
            ) && final(self)@ == old(self)@,
    {
        if !self.accepts_writes {
            return Err(StorageError::WriteFailed);
        }
        let n = self.entries.len();
        let mut i: usize = 0;
        while i < n
            invariant
                self.wf(),
                self == old(self),
                old(self).writable(),
                n == self.entries.len(),
                forall|j: int| 0 <= j < i ==> self.entries@[j].0@ != key@,
            decreases n - i,
        {
            let found = {
                let pair = &self.entries[i];
                pair.0 == key
            };
            if found {
                proof {
                    lemma_entries_map_update(self.entries@, i as int, (key, value));
                    assert(forall|m: int|
                        0 <= m < self.entries@.len() ==> self.entries@.update(
                            i as int,
                            (key, value),
                        )[m].0@ == self.entries@[m].0@);
                }
                self.entries.set(i, (key, value));
                return Ok(());
            }
            i = i + 1;
        }
        proof {
            assert(self.entries@.push((key, value)).drop_last() =~= self.entries@);
        }
        self.entries.push((key, value));
        return Ok(());
    }

    /// Empties the storage entirely.
    pub fn clear(&mut self)
        requires
            old(self).wf(),
        ensures
            final(self).wf(),
            final(self)@ == Map::<Seq<char>, Seq<char>>::empty(),
            final(self).writable() == old(self).writable(),
    {
        self.entries = Vec::new();
    }
}

fn record_key_string() -> (k: String)
    ensures
        k@ == PersistentStore::record_key(),
{
    "session".to_owned()
}

/// The session-record layer over the raw storage: one fixed key holds the
/// encoded session record, written after every session mutation and read
/// once at application start.
pub struct PersistentStore {
    /// The underlying key/value storage.
    pub kv: KvStore,
}

impl PersistentStore {
    pub open spec fn wf(self) -> bool {
        self.kv.wf()
    }

    /// The storage key of the session record.
    pub open spec fn record_key() -> Seq<char> {
        "session"@
    }

    /// What `load` yields: the decoded record, or nothing where the record
    /// is absent or malformed.
    pub open spec fn loaded(self) -> Option<SessionV> {
        if self.kv@.contains_key(Self::record_key()) {
            decode_session_spec(self.kv@[Self::record_key()])
        } else {
            None
        }
    }

    /// An empty, healthy store: nothing persisted yet.
    pub fn new() -> (s: PersistentStore)
        ensures
            s.wf(),
            s.loaded() is None,
            s.kv@ == Map::<Seq<char>, Seq<char>>::empty(),
            s.kv.writable(),
    {
        PersistentStore { kv: KvStore::new() }
    }

    /// Serializes the session and writes it under the record key.  A write
    /// failure is reported for logging, leaves the stored contents
    /// unchanged, and never touches the in-memory session.
    pub fn save(&mut self, s: &Session) -> (r: Result<(), StorageError>)
        requires
            old(self).wf(),
            s.wf(),
        ensures
            final(self).wf(),
            final(self).kv.writable() == old(self).kv.writable(),
            old(self).kv.writable() ==> r is Ok && final(self).kv@ == old(self).kv@.insert(
                Self::record_key(),
                encode_session_spec(s@),
            ) && final(self).loaded() == Some(s@),
            !old(self).kv.writable() ==> r == Result::<(), StorageError>::Err(
                StorageError::WriteFailed,
            ) && final(self).kv@ == old(self).kv@,
    {
        let text = encode_session(s);
        let key = record_key_string();
        self.kv.set(key, text)
    }

    /// Deserializes a previously saved session.  A missing or corrupt
    /// record is `None`: never an error outward.
    pub fn load(&self) -> (r: Option<Session>)
        requires
            self.wf(),
        ensures
            r matches Some(sess) ==> self.loaded() == Some(sess@) && sess.wf(),
            r is None ==> self.loaded() is None,
    {
        let key = record_key_string();
        match self.kv.get(&key) {
            Some(text) => decode_session(text.as_str()),
            None => None,
        }
    }
}

} // verus!
