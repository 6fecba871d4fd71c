//! The registry of live sessions.
//!
//! Sessions are keyed by ids handed out in increasing order and never reused.
//! To work on a session the caller checks it out, which leaves its slot and
//! id reserved, does its I/O without touching the registry, and checks it in
//! again: whatever lock guards the registry is only ever held across these
//! short calls, never across a wait on a socket.

use vstd::prelude::*;
use crate::session::{Phase, Session, SessionModel, at_rest, settled};

verus! {

/// One more than the largest id a `u16` can hold.
pub const ID_LIMIT: u32 = 65536;

/// A point-in-time copy of what is known of a session.
pub struct SessionMetadata {
    pub id: u16,
    pub username: String,
    pub address: String,
    pub cwd: String,
}

/// What the registry holds for one id.
pub struct EntryModel {
    pub id: u16,
    pub username: Seq<char>,
    pub address: Seq<char>,
    pub cwd: Seq<char>,
    /// The session, or `None` while it is checked out.
    pub session: Option<SessionModel>,
}

/// The registry as values: its entries in the order they were inserted, and
/// the id the next insertion receives.
pub struct RegistryModel {
    pub entries: Seq<EntryModel>,
    pub next_id: nat,
}

/// Why a registry operation failed.
#[derive(PartialEq, Eq, Structural, Clone, Copy, Debug)]
pub enum RegistryError {
    /// No session has that id.
    SessionNotFound,
    /// The session is checked out by another operation.
    SessionBusy,
    /// Every id a `u16` can hold was handed out.
    IdsExhausted,
    /// The session has not finished its handshake.
    NotEstablished,
}

impl SessionMetadata {
    /// The metadata shows `e`.
    pub open spec fn shows(&self, e: EntryModel) -> bool {
        &&& self.id == e.id
        &&& self.username@ == e.username
        &&& self.address@ == e.address
        &&& self.cwd@ == e.cwd
    }
}

/// Some entry of `r` has id `id`.
pub open spec fn has_id(r: RegistryModel, id: u16) -> bool {
    exists|i: int| 0 <= i < r.entries.len() && r.entries[i].id == id
}

/// The entry of `s` for a session that was just inserted with id `id`.
pub open spec fn entry_of(id: u16, s: SessionModel) -> EntryModel {
    EntryModel { id, username: s.username, address: s.address, cwd: s.cwd, session: Some(s) }
}

/// `r` after inserting the established session `s`.
pub open spec fn inserted(r: RegistryModel, s: SessionModel) -> RegistryModel {
    RegistryModel { entries: r.entries.push(entry_of(r.next_id as u16, s)), next_id: r.next_id + 1 }
}

/// The ids of `r` increase along its entries and all lie below the next id.
pub open spec fn ids_ordered(r: RegistryModel) -> bool {
    &&& forall|i: int, j: int|
        0 <= i < j < r.entries.len() ==> (#[trigger] r.entries[i]).id < (#[trigger] r.entries[j]).id
    &&& forall|i: int| 0 <= i < r.entries.len() ==> (#[trigger] r.entries[i]).id < r.next_id
    &&& r.next_id <= ID_LIMIT
}

struct Entry {
    id: u16,
    username: String,
    address: String,
    cwd: String,
    session: Option<Session>,
}

impl Entry {
    closed spec fn model(&self) -> EntryModel {
        EntryModel {
            id: self.id,
            username: self.username@,
            address: self.address@,
            cwd: self.cwd@,
            session: match self.session {
                Some(s) => Some(s@),
                None => None,
            },
        }
    }

    closed spec fn wf(&self) -> bool {
        match self.session {
            Some(s) => s.wf() && at_rest(s@.phase) && s@.username == self.username@
                && s@.address == self.address@ && s@.cwd == self.cwd@,
            None => true,
        }
    }
}

/// The store of all live sessions.
pub struct Registry {
    entries: Vec<Entry>,
    next_id: u32,
}

impl View for Registry {
    type V = RegistryModel;

    closed spec fn view(&self) -> RegistryModel {
        RegistryModel {
            entries: self.entries@.map_values(|e: Entry| e.model()),
            next_id: self.next_id as nat,
        }
    }
}

impl Registry {
    /// Ids increase along the entries and lie below the next id; each
    /// session in the registry is idle or closed and shows what its entry
    /// shows.
    pub closed spec fn wf(&self) -> bool {
        &&& ids_ordered(self@)
        &&& forall|i: int| 0 <= i < self.entries@.len() ==> (#[trigger] self.entries@[i]).wf()
    }

    /// The ids of a well-formed registry increase along its entries and lie
    /// below the next id, which is at most one past the largest `u16`.
    pub proof fn lemma_ids_ordered(&self)
        requires
            self.wf(),
        ensures
            ids_ordered(self@),
    {
    }

    /// An empty registry.
    pub fn new() -> (r: Registry)
        ensures
            r.wf(),
            r@.entries.len() == 0,
            r@.next_id == 0,
    {
        let r = Registry { entries: Vec::new(), next_id: 0 };
        assert(r@.entries =~= Seq::<EntryModel>::empty());
        r
    }

    /// The place of the entry with id `id`, if there is one.
    fn find(&self, id: u16) -> (r: Option<usize>)
        requires
            self.wf(),
        ensures
            match r {
                Some(i) => i < self@.entries.len() && self@.entries[i as int].id == id,
                None => !has_id(self@, id),
            },
    {
        let mut i: usize = 0;
        while i < self.entries.len()
            invariant
                i <= self.entries@.len(),
                forall|j: int| 0 <= j < i ==> self.entries@[j].id != id,
            decreases self.entries.len() - i,
        {
            if self.entries[i].id == id {
                return Some(i);
            }
            i = i + 1;
        }
        None
    }

    /// Inserts an established session under the next id and returns that id.
    /// Fails, changing nothing, with `NotEstablished` when the session is not
    /// idle, or else with `IdsExhausted` when every id was handed out.
    pub fn insert(&mut self, session: Session) -> (r: Result<u16, RegistryError>)
        requires
            old(self).wf(),
            session.wf(),
        ensures
            final(self).wf(),
            session@.phase != Phase::Ready ==> r == Err::<u16, RegistryError>(
                RegistryError::NotEstablished,
            ) && final(self)@ == old(self)@,
            session@.phase == Phase::Ready && old(self)@.next_id == ID_LIMIT ==> r == Err::<
                u16,
                RegistryError,
            >(RegistryError::IdsExhausted) && final(self)@ == old(self)@,
            session@.phase == Phase::Ready && old(self)@.next_id < ID_LIMIT ==> r == Ok::<
                u16,
                RegistryError,
            >(old(self)@.next_id as u16) && final(self)@ == inserted(old(self)@, session@)
                && session@.established && !has_id(old(self)@, old(self)@.next_id as u16) && (forall|
                i: int,
            |
                0 <= i < old(self)@.entries.len() ==> (#[trigger] old(self)@.entries[i]).id
                    < old(self)@.next_id),
            old(self)@.next_id <= ID_LIMIT,
            ids_ordered(final(self)@),
    {
        if !session.is_ready() {
            return Err(RegistryError::NotEstablished);
        }
        if self.next_id >= ID_LIMIT {
            return Err(RegistryError::IdsExhausted);
        }
        proof {
            session.lemma_ready_is_established();
            assert(!has_id(old(self)@, old(self)@.next_id as u16)) by {
                if has_id(old(self)@, old(self)@.next_id as u16) {
                    let i = choose|i: int|
                        0 <= i < old(self)@.entries.len() && old(self)@.entries[i].id == old(self)@.next_id as u16;
                    assert(old(self)@.entries[i].id < old(self)@.next_id);
                }
            }
        }
        let id = self.next_id as u16;
        let entry = Entry {
            id,
            username: session.username().clone(),
            address: session.address().clone(),
            cwd: session.cwd().clone(),
            session: Some(session),
        };
        let ghost before = self.entries@;
        self.entries.push(entry);
        self.next_id = self.next_id + 1;
        assert(self@.entries =~= old(self)@.entries.push(entry_of(id, session@)));
        assert forall|i: int| 0 <= i < self.entries@.len() implies (#[trigger] self.entries@[i]).wf() by {
            if i < before.len() {
                assert(self.entries@[i] == before[i]);
            }
        }
        assert(ids_ordered(self@)) by {
            assert forall|i: int| 0 <= i < self@.entries.len() implies (#[trigger] self@.entries[i]).id
                < self@.next_id by {
                if i < before.len() {
                    assert(self@.entries[i] == old(self)@.entries[i]);
                }
            }
            assert forall|i: int, j: int| 0 <= i < j < self@.entries.len() implies (
            #[trigger] self@.entries[i]).id < (#[trigger] self@.entries[j]).id by {
                assert(self@.entries[i] == old(self)@.entries[i]);
                if j < before.len() {
                    assert(self@.entries[j] == old(self)@.entries[j]);
                }
            }
        }
        Ok(id)
    }

    /// Takes the session with id `id`, idle or closed, out of the registry for
    /// one operation; its slot and id stay reserved until it is checked in. Fails, changing
    /// nothing, with `SessionNotFound` when no session has that id, and with
    /// `SessionBusy` when it is already checked out.
    pub fn checkout(&mut self, id: u16) -> (r: Result<Session, RegistryError>)
        requires
            old(self).wf(),
        ensures
            final(self).wf(),
            !has_id(old(self)@, id) ==> (r matches Err(e) && e == RegistryError::SessionNotFound
                && final(self)@ == old(self)@),
            forall|i: int|
                0 <= i < old(self)@.entries.len() && (#[trigger] old(self)@.entries[i]).id == id
                    ==> match old(self)@.entries[i].session {
                    None => r matches Err(e) && e == RegistryError::SessionBusy && final(self)@
                        == old(self)@,
                    Some(m) => r matches Ok(s) && s.wf() && s@ == m && at_rest(m.phase) && final(self)@ == (
                    RegistryModel {
                        entries: old(self)@.entries.update(
                            i,
                            EntryModel { session: None, ..old(self)@.entries[i] },
                        ),
                        ..old(self)@
                    }),
                },
    {
        match self.find(id) {
            None => Err(RegistryError::SessionNotFound),
            Some(i) => {
                proof {
                    self.lemma_unique(i as int);
                }
                if self.entries[i].session.is_none() {
                    return Err(RegistryError::SessionBusy);
                }
                let ghost before = self.entries@;
                let taken = self.entries[i].session.take();
                proof {
                    self.lemma_update(before, i as int);
                }
                match taken {
                    Some(s) => Ok(s),
                    None => Err(RegistryError::SessionBusy),
                }
            },
        }
    }

    /// Puts back a session that was checked out under `id`, with the user and
    /// directory it now has. A session whose transaction broke off before it
    /// was over (its stream is out of step) is put back closed. Hands the
    /// session back, changing nothing, when no checked-out slot has that id:
    /// it was removed meanwhile.
    pub fn checkin(&mut self, id: u16, session: Session) -> (r: Option<Session>)
        requires
            old(self).wf(),
            session.wf(),
        ensures
            final(self).wf(),
            match r {
                Some(s) => s@ == session@ && final(self)@ == old(self)@,
                None => exists|i: int|
                    0 <= i < old(self)@.entries.len() && (#[trigger] old(self)@.entries[i]).id == id
                        && old(self)@.entries[i].session is None && final(self)@ == (RegistryModel {
                        entries: old(self)@.entries.update(
                            i,
                            EntryModel {
                                id,
                                username: session@.username,
                                address: session@.address,
                                cwd: session@.cwd,
                                session: Some(settled(session@)),
                            },
                        ),
                        ..old(self)@
                    }),
            },
            r is Some <==> (!has_id(old(self)@, id) || exists|i: int|
                0 <= i < old(self)@.entries.len() && (#[trigger] old(self)@.entries[i]).id == id
                    && old(self)@.entries[i].session is Some),
    {
        match self.find(id) {
            None => Some(session),
            Some(i) => {
                proof {
                    self.lemma_unique(i as int);
                }
                if self.entries[i].session.is_some() {
                    assert(old(self)@.entries[i as int].session is Some);
                    return Some(session);
                }
                let mut session = session;
                if !session.is_at_rest() {
                    session.close();
                }
                let ghost before = self.entries@;
                let ghost m = session@;
                let username = session.username().clone();
                let address = session.address().clone();
                let cwd = session.cwd().clone();
                let entry = Entry { id, username, address, cwd, session: Some(session) };
                self.entries.set(i, entry);
                proof {
                    self.lemma_update(before, i as int);
                    assert(self@.entries =~= old(self)@.entries.update(
                        i as int,
                        EntryModel { id, username: m.username, address: m.address, cwd: m.cwd, session: Some(m) },
                    ));
                }
                None
            },
        }
    }

    /// Removes the entry with id `id` and returns its session, `None` when it
    /// is checked out. Its id is not handed out again. Fails, changing
    /// nothing, with `SessionNotFound` when no session has that id.
    pub fn remove(&mut self, id: u16) -> (r: Result<Option<Session>, RegistryError>)
        requires
            old(self).wf(),
        ensures
            final(self).wf(),
            !has_id(old(self)@, id) ==> (r matches Err(e) && e == RegistryError::SessionNotFound
                && final(self)@ == old(self)@),
            forall|i: int|
                0 <= i < old(self)@.entries.len() && (#[trigger] old(self)@.entries[i]).id == id
                    ==> r is Ok && final(self)@ == (RegistryModel {
                    entries: old(self)@.entries.remove(i),
                    ..old(self)@
                }) && match old(self)@.entries[i].session {
                    None => r matches Ok(o) && o is None,
                    Some(m) => r matches Ok(o) && o matches Some(s) && s@ == m && s.wf(),
                },
    {
        match self.find(id) {
            None => Err(RegistryError::SessionNotFound),
            Some(i) => {
                proof {
                    self.lemma_unique(i as int);
                }
                let ghost before = self.entries@;
                let e = self.entries.remove(i);
                assert(before[i as int].wf());
                proof {
                    assert(self@.entries =~= old(self)@.entries.remove(i as int));
                    assert forall|j: int| 0 <= j < self.entries@.len() implies (
                    #[trigger] self.entries@[j]).wf() by {
                        if j < i {
                            assert(self.entries@[j] == before[j]);
                        } else {
                            assert(self.entries@[j] == before[j + 1]);
                        }
                    }
                    assert forall|a: int, b: int| 0 <= a < b < self@.entries.len() implies (
                    #[trigger] self@.entries[a]).id < (#[trigger] self@.entries[b]).id by {
                        let a0 = if a < i { a } else { a + 1 };
                        let b0 = if b < i { b } else { b + 1 };
                        assert(self@.entries[a] == old(self)@.entries[a0]);
                        assert(self@.entries[b] == old(self)@.entries[b0]);
                    }
                    assert forall|a: int| 0 <= a < self@.entries.len() implies (
                    #[trigger] self@.entries[a]).id < self@.next_id by {
                        let a0 = if a < i { a } else { a + 1 };
                        assert(self@.entries[a] == old(self)@.entries[a0]);
                    }
                }
                Ok(e.session)
            },
        }
    }

    /// A copy of what is known of every session, in the order they were
    /// inserted.
    pub fn snapshot(&self) -> (r: Vec<SessionMetadata>)
        requires
            self.wf(),
        ensures
            r@.len() == self@.entries.len(),
            forall|i: int| 0 <= i < r@.len() ==> (#[trigger] r@[i]).shows(self@.entries[i]),
    {
        let mut r: Vec<SessionMetadata> = Vec::new();
        let mut i: usize = 0;
        while i < self.entries.len()
            invariant
                i <= self.entries@.len(),
                r@.len() == i,
                forall|j: int| 0 <= j < i ==> (#[trigger] r@[j]).shows(self@.entries[j]),
            decreases self.entries.len() - i,
        {
            let e = &self.entries[i];
            r.push(SessionMetadata {
                id: e.id,
                username: e.username.clone(),
                address: e.address.clone(),
                cwd: e.cwd.clone(),
            });
            i = i + 1;
        }
        r
    }

    /// At most one entry has a given id.
    proof fn lemma_unique(&self, i: int)
        requires
            self.wf(),
            0 <= i < self@.entries.len(),
        ensures
            forall|j: int|
                0 <= j < self@.entries.len() && (#[trigger] self@.entries[j]).id == self@.entries[i].id
                    ==> j == i,
    {
        assert forall|j: int|
            0 <= j < self@.entries.len() && (#[trigger] self@.entries[j]).id == self@.entries[i].id
                implies j == i by {
            if j < i {
                assert(self@.entries[j].id < self@.entries[i].id);
            } else if j > i {
                assert(self@.entries[i].id < self@.entries[j].id);
            }
        }
    }

    /// Changing the entry at `i` without changing its id keeps the ids in
    /// order and the other entries as they were.
    proof fn lemma_update(&self, before: Seq<Entry>, i: int)
        requires
            0 <= i < before.len(),
            self.entries@.len() == before.len(),
            self.entries@[i].id == before[i].id,
            self.entries@[i].wf(),
            forall|j: int| 0 <= j < before.len() && j != i ==> self.entries@[j] == before[j],
            forall|j: int| 0 <= j < before.len() ==> (#[trigger] before[j]).wf(),
            ids_ordered(RegistryModel { entries: before.map_values(|e: Entry| e.model()), next_id: self.next_id as nat }),
        ensures
            self.wf(),
            self@.entries == before.map_values(|e: Entry| e.model()).update(i, self.entries@[i].model()),
    {
        let old_entries = before.map_values(|e: Entry| e.model());
        assert(self@.entries =~= old_entries.update(i, self.entries@[i].model()));
        assert forall|j: int| 0 <= j < self.entries@.len() implies (#[trigger] self.entries@[j]).wf() by {
            if j != i {
                assert(self.entries@[j] == before[j]);
            }
        }
        assert forall|a: int, b: int| 0 <= a < b < self@.entries.len() implies (
        #[trigger] self@.entries[a]).id < (#[trigger] self@.entries[b]).id by {
            assert(old_entries[a].id < old_entries[b].id);
        }
        assert forall|a: int| 0 <= a < self@.entries.len() implies (#[trigger] self@.entries[a]).id
            < self@.next_id by {
            assert(old_entries[a].id < self@.next_id);
        }
    }
}

/// Whether a session of `registry` has id `id`.
pub fn is_session_exist(registry: &Registry, id: u16) -> (r: bool)
    requires
        registry.wf(),
    ensures
        r == has_id(registry@, id),
{
    registry.find(id).is_some()
}

/// What is known of the session with id `id`. Fails with `SessionNotFound`
/// when no session has that id.
pub fn get_metadata(registry: &Registry, id: u16) -> (r: Result<SessionMetadata, RegistryError>)
    requires
        registry.wf(),
    ensures
        !has_id(registry@, id) ==> (r matches Err(e) && e == RegistryError::SessionNotFound),
        forall|i: int|
            0 <= i < registry@.entries.len() && (#[trigger] registry@.entries[i]).id == id
                ==> (r matches Ok(m) && m.shows(registry@.entries[i])),
{
    match registry.find(id) {
        None => Err(RegistryError::SessionNotFound),
        Some(i) => {
            proof {
                registry.lemma_unique(i as int);
            }
            let e = &registry.entries[i];
            Ok(SessionMetadata {
                id: e.id,
                username: e.username.clone(),
                address: e.address.clone(),
                cwd: e.cwd.clone(),
            })
        },
    }
}

/// An insertion hands out an id that no entry has and that exceeds every id
/// present, keeps the ids in order, and moves the next id past it: ids are
/// handed out in increasing order and never repeat, whatever was removed.
pub proof fn lemma_insert_fresh(r: RegistryModel, s: SessionModel)
    requires
        ids_ordered(r),
        r.next_id < ID_LIMIT,
    ensures
        !has_id(r, r.next_id as u16),
        forall|i: int| 0 <= i < r.entries.len() ==> (#[trigger] r.entries[i]).id < r.next_id as u16,
        ids_ordered(inserted(r, s)),
        inserted(r, s).next_id > r.next_id as u16,
        inserted(r, s).entries.last().id == r.next_id as u16,
        inserted(r, s).next_id == inserted(r, s).entries.last().id + 1,
{
    let r2 = inserted(r, s);
    assert forall|i: int| 0 <= i < r.entries.len() implies (#[trigger] r.entries[i]).id < r.next_id
        as u16 by {
        assert(r.entries[i].id < r.next_id);
    }
    assert forall|i: int, j: int| 0 <= i < j < r2.entries.len() implies (
    #[trigger] r2.entries[i]).id < (#[trigger] r2.entries[j]).id by {
        assert(r2.entries[i] == r.entries[i]);
        if j < r.entries.len() {
            assert(r2.entries[j] == r.entries[j]);
        }
    }
    assert forall|i: int| 0 <= i < r2.entries.len() implies (#[trigger] r2.entries[i]).id
        < r2.next_id by {
        if i < r.entries.len() {
            assert(r2.entries[i] == r.entries[i]);
        }
    }
}

/// Two insertions into a registry without sessions leave exactly two
/// entries, in the order of insertion, with increasing ids.
pub proof fn lemma_two_insertions(r: RegistryModel, a: SessionModel, b: SessionModel)
    requires
        r.entries.len() == 0,
        ids_ordered(r),
        r.next_id + 2 <= ID_LIMIT,
    ensures
        inserted(inserted(r, a), b).entries.len() == 2,
        inserted(inserted(r, a), b).entries[0] == entry_of(r.next_id as u16, a),
        inserted(inserted(r, a), b).entries[1] == entry_of((r.next_id + 1) as u16, b),
        inserted(inserted(r, a), b).entries[0].id < inserted(inserted(r, a), b).entries[1].id,
{
}

} // verus!
