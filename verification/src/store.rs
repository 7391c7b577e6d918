//! Opening the store, and keeping this session's entry in its index.
//!
//! The host switches the plugin's folder and reports back; files are read and written by the
//! plugin around the library. What comes next is decided here.

use vstd::prelude::*;

use crate::host::{
    current_place, current_session, HostCall, HostCallV, SessionInfo, SessionInfoV,
};
use crate::ids::{group_views, opt_view, views};
use crate::persistence::{
    ancestor, components, descend, entry_ok, fresh_id, guest_path, id_like, id_place, index_ok,
    inside_host, largest_session, lies_under, missing_part, name_place, next_ancestor, reconcile,
    same_path, store_dir, store_path, tmp_name, tmp_rel, ANCESTOR_LIMIT, HOST_DIR, ID_MAX,
    SessionEntryV, SessionIndex, SessionIndexV, Store, StoreV, WRITE_RETRIES,
};
use crate::state::{PersistenceV, State, StateV};
use crate::text::{
    digits, is_text, lemma_digits_len, lemma_number_of_digits, lemma_parsed_digits, parsed,
};

verus! {

broadcast use group_views;

/// What is to be done after the host has switched the folder.
#[derive(Debug)]
pub enum FolderStep {
    Nothing,
    /// The store is open.
    Opened,
    /// Make these folders, and report to `State::store_made`.
    Make(Vec<String>),
}

impl StateV {
    pub open spec fn with_store(self, store: StoreV) -> StateV {
        StateV { disk: PersistenceV { store, ..self.disk }, ..self }
    }

    /// The host is asked for a folder on the way to the store.
    pub open spec fn attempt_host_folder(
        self,
        target: Seq<Seq<char>>,
        attempt: Seq<Seq<char>>,
    ) -> StateV {
        self.with_store(StoreV::Opening(target, attempt)).asks(HostCallV::ChangeHostFolder(attempt))
    }

    /// The store is opened once. Where no place for it is known there is none.
    pub open spec fn open_store(self, xdg: Option<Seq<char>>, home: Option<Seq<char>>) -> StateV {
        if self.disk.store != StoreV::Idle {
            self
        } else {
            match store_path(xdg, home) {
                Some(target) => self.attempt_host_folder(target, target),
                None => self.with_store(StoreV::Unavailable),
            }
        }
    }

    /// The folder was switched: to the store itself, or to a folder above it, below which the
    /// store has to be made first.
    pub open spec fn host_folder_changed(self, reached: Seq<Seq<char>>) -> StateV {
        match self.disk.store {
            StoreV::Opening(target, _) => if reached == target {
                self.with_store(StoreV::Ready)
            } else if missing_part(target, reached) is None {
                self.with_store(StoreV::Unavailable)
            } else {
                self
            },
            _ => self,
        }
    }

    /// The store was made, or could not be made.
    pub open spec fn store_made(self, made: bool) -> StateV {
        match self.disk.store {
            StoreV::Opening(target, _) => if made {
                self.attempt_host_folder(target, target)
            } else {
                self.with_store(StoreV::Unavailable)
            },
            _ => self,
        }
    }

    /// The folder could not be switched: a folder further up is tried, or the store given up.
    pub open spec fn host_folder_failed(self) -> StateV {
        match self.disk.store {
            StoreV::Opening(target, attempt) => match ancestor(target, attempt) {
                Some(next) => self.attempt_host_folder(target, next),
                None => self.with_store(StoreV::Unavailable),
            },
            _ => self,
        }
    }

    /// The name of the session that this instance is in.
    pub open spec fn name_among(sessions: Seq<SessionInfoV>) -> Option<Seq<char>> {
        let n = current_place(sessions);
        if n < sessions.len() {
            Some(sessions[n as int].name)
        } else {
            None
        }
    }

    /// The session has a name that is not known yet.
    pub open spec fn renamed(self, name: Option<Seq<char>>) -> bool {
        name is Some && self.disk.session_name != name
    }

    pub open spec fn session_update(self, name: Option<Seq<char>>) -> StateV {
        if self.renamed(name) {
            StateV { disk: PersistenceV { session_name: name, ..self.disk }, ..self }
        } else {
            self
        }
    }

    /// The index can be brought up to date.
    pub open spec fn can_sync_index(self) -> bool {
        self.disk.store == StoreV::Ready && self.disk.session_name is Some
    }

    /// The paths of a file of the store and of the file that is written before.
    pub open spec fn write_plan(self, rel: Seq<char>) -> Option<(Seq<Seq<char>>, Seq<Seq<char>>)> {
        let id = match self.me.own_plugin_id {
            Some(id) => id,
            None => 0,
        };
        let session = match self.disk.session_name {
            Some(name) => name,
            None => Seq::empty(),
        };
        let dest = inside_host(rel);
        let tmp = inside_host(tmp_name(rel, id, session));
        if self.disk.store == StoreV::Ready && dest is Some && tmp is Some {
            Some((dest->0, tmp->0))
        } else {
            None
        }
    }
}

impl State {
    fn attempt_host_folder(&mut self, target: Vec<String>, attempt: Vec<String>)
        ensures
            final(self)@ == old(self)@.attempt_host_folder(views(target@), views(attempt@)),
    {
        let asked = copy_path(&attempt);
        self.disk.store = Store::Opening(target, attempt);
        self.ask(HostCall::ChangeHostFolder(asked));
    }

    /// Starts to open the store, by the variables `XDG_CONFIG_HOME` and `HOME`.
    pub fn open_store(&mut self, xdg: Option<&str>, home: Option<&str>)
        ensures
            final(self)@ == old(self)@.open_store(opt_view(xdg), opt_view(home)),
    {
        if !matches!(self.disk.store, Store::Idle) {
            return ;
        }
        match store_dir(xdg, home) {
            Some(target) => {
                let attempt = copy_path(&target);
                self.attempt_host_folder(target, attempt);
            },
            None => {
                self.disk.store = Store::Unavailable;
            },
        }
    }

    /// Takes in that the folder was switched to `reached`.
    pub fn on_host_folder_changed(&mut self, reached: &Vec<String>) -> (r: FolderStep)
        ensures
            final(self)@ == old(self)@.host_folder_changed(views(reached@)),
            match r {
                FolderStep::Opened => old(self)@.disk.store is Opening && final(self)@.disk.store
                    is Ready,
                FolderStep::Make(path) => old(self)@.disk.store is Opening && Some(views(path@))
                    == missing_part(old(self)@.disk.store->Opening_0, views(reached@))
                    && views(reached@) != old(self)@.disk.store->Opening_0,
                FolderStep::Nothing => !(final(self)@.disk.store is Opening) && !(old(
                    self,
                )@.disk.store is Opening && final(self)@.disk.store is Ready),
            },
    {
        let step = match &self.disk.store {
            Store::Opening(target, _) => if same_path(reached, target) {
                FolderStep::Opened
            } else {
                match descend(target, reached) {
                    Some(path) => FolderStep::Make(path),
                    None => FolderStep::Nothing,
                }
            },
            _ => {
                return FolderStep::Nothing;
            },
        };
        if matches!(step, FolderStep::Opened) {
            self.disk.store = Store::Ready;
        }
        if matches!(step, FolderStep::Nothing) {
            self.disk.store = Store::Unavailable;
        }
        step
    }

    /// Takes in whether the folders of the store could be made.
    pub fn store_made(&mut self, made: bool)
        ensures
            final(self)@ == old(self)@.store_made(made),
    {
        let target = match &self.disk.store {
            Store::Opening(target, _) => copy_path(target),
            _ => {
                return ;
            },
        };
        if made {
            let attempt = copy_path(&target);
            self.attempt_host_folder(target, attempt);
        } else {
            self.disk.store = Store::Unavailable;
        }
    }

    /// Takes in that the folder could not be switched.
    pub fn on_host_folder_failed(&mut self)
        ensures
            final(self)@ == old(self)@.host_folder_failed(),
    {
        let (target, next) = match &self.disk.store {
            Store::Opening(target, attempt) => (copy_path(target), next_ancestor(target, attempt)),
            _ => {
                return ;
            },
        };
        match next {
            Some(next) => self.attempt_host_folder(target, next),
            None => {
                self.disk.store = Store::Unavailable;
            },
        }
    }

    /// Takes in the sessions of the host. Returns whether the index is to be brought up to date.
    pub fn handle_session_update(&mut self, sessions: &Vec<SessionInfo>) -> (r: bool)
        ensures
            final(self)@ == old(self)@.session_update(StateV::name_among(views(sessions@))),
            r == (old(self)@.renamed(StateV::name_among(views(sessions@)))
                && final(self)@.can_sync_index()),
    {
        let name = match current_session(sessions) {
            Some(n) => sessions[n].name.as_str(),
            None => {
                return false;
            },
        };
        if is_text(&self.disk.session_name, name) {
            return false;
        }
        self.disk.session_name = Some(name.to_owned());
        self.can_sync_index()
    }

    /// Whether the index can be brought up to date.
    pub fn can_sync_index(&self) -> (r: bool)
        ensures
            r == self@.can_sync_index(),
    {
        matches!(self.disk.store, Store::Ready) && self.disk.session_name.is_some()
    }

    /// The paths of a file of the store and of the file that is written before. None while
    /// there is no store, or where the file would lie outside of it.
    pub fn write_plan(&self, rel: &str) -> (r: Option<(Vec<String>, Vec<String>)>)
        ensures
            r is Some == self@.write_plan(rel@) is Some,
            r is Some ==> (views((r->0).0@), views((r->0).1@)) == self@.write_plan(rel@)->0,
    {
        if !matches!(self.disk.store, Store::Ready) {
            return None;
        }
        let id: u32 = match self.me.own_plugin_id {
            Some(id) => id,
            None => 0,
        };
        let tmp = match &self.disk.session_name {
            Some(name) => tmp_rel(rel, id, name.as_str()),
            None => {
                let none = String::new();
                tmp_rel(rel, id, none.as_str())
            },
        };
        match (guest_path(rel), guest_path(tmp.as_str())) {
            (Some(dest), Some(tmp)) => Some((dest, tmp)),
            _ => None,
        }
    }

    /// Starts an update of the index. None while it cannot be brought up to date.
    pub fn begin_index_update(&self, now: u64) -> (r: Option<IndexUpdate>)
        ensures
            r is Some == self@.can_sync_index(),
            r is Some ==> (r->0)@ == (IndexUpdateV {
                name: self@.disk.session_name->0,
                current: self@.disk.session_id,
                now,
                attempts: 0,
                assigned: None,
                planned: None,
            }),
    {
        if !matches!(self.disk.store, Store::Ready) {
            return None;
        }
        let current = match &self.disk.session_id {
            Some(id) => Some(id.clone()),
            None => None,
        };
        match &self.disk.session_name {
            Some(name) => Some(
                IndexUpdate {
                    name: name.clone(),
                    current,
                    now,
                    attempts: 0,
                    assigned: None,
                    planned: None,
                },
            ),
            None => None,
        }
    }

    /// Takes over the id that an update of the index found, written or not.
    pub fn end_index_update(&mut self, update: IndexUpdate)
        ensures
            final(self)@ == (StateV {
                disk: PersistenceV {
                    session_id: if update@.assigned is Some {
                        update@.assigned
                    } else {
                        old(self)@.disk.session_id
                    },
                    ..old(self)@.disk
                },
                ..old(self)@
            }),
    {
        if update.assigned.is_some() {
            self.disk.session_id = update.assigned;
        }
    }
}

fn copy_path(path: &Vec<String>) -> (r: Vec<String>)
    ensures
        views(r@) == views(path@),
{
    let ghost v = views(path@);
    let mut out: Vec<String> = Vec::new();
    let mut i: usize = 0;
    while i < path.len()
        invariant
            i <= path.len(),
            v == views(path@),
            views(out@) =~= v.take(i as int),
        decreases path.len() - i,
    {
        assert(v[i as int] == path[i as int]@);
        out.push(path[i].clone());
        i += 1;
    }
    assert(views(out@) =~= v);
    out
}

// --- updates of the index ---

/// What is to be done next in an update of the index.
#[derive(Debug)]
pub enum IndexAction {
    /// Read the index, and report to `IndexUpdate::on_read`.
    Read,
    /// Read it again, and report to `IndexUpdate::on_reread`.
    Reread,
    /// Write this index, and report to `IndexUpdate::on_written`.
    Write(SessionIndex),
    Done,
}

#[verifier::ext_equal]
pub enum IndexActionV {
    Read,
    Reread,
    Write(SessionIndexV),
    Done,
}

impl View for IndexAction {
    type V = IndexActionV;

    open spec fn view(&self) -> IndexActionV {
        match self {
            IndexAction::Read => IndexActionV::Read,
            IndexAction::Reread => IndexActionV::Reread,
            IndexAction::Write(index) => IndexActionV::Write(index@),
            IndexAction::Done => IndexActionV::Done,
        }
    }
}

/// An update of the index. Others may write the index at any time: it is read again before
/// it is written, and an update that comes too late starts over.
#[derive(Debug)]
pub struct IndexUpdate {
    pub name: String,
    /// The id of the session when the update began.
    pub current: Option<String>,
    pub now: u64,
    /// The tries that failed.
    pub attempts: usize,
    /// The id that was found for the session.
    pub assigned: Option<String>,
    /// What is to be written.
    pub planned: Option<SessionIndex>,
}

#[verifier::ext_equal]
pub struct IndexUpdateV {
    pub name: Seq<char>,
    pub current: Option<Seq<char>>,
    pub now: u64,
    pub attempts: usize,
    pub assigned: Option<Seq<char>>,
    pub planned: Option<SessionIndexV>,
}

impl View for IndexUpdate {
    type V = IndexUpdateV;

    open spec fn view(&self) -> IndexUpdateV {
        IndexUpdateV {
            name: self.name@,
            current: opt_view(self.current),
            now: self.now,
            attempts: self.attempts,
            assigned: opt_view(self.assigned),
            planned: opt_view(self.planned),
        }
    }
}

/// The next revision; revisions do not pass the largest value.
pub open spec fn next_revision(n: u64) -> u64 {
    if n < u64::MAX {
        (n + 1) as u64
    } else {
        n
    }
}

impl IndexUpdateV {
    /// A try failed: another one, as long as tries are left.
    pub open spec fn retry(self) -> (IndexUpdateV, IndexActionV) {
        let attempts = if self.attempts < WRITE_RETRIES {
            (self.attempts + 1) as usize
        } else {
            self.attempts
        };
        (
            IndexUpdateV { attempts, planned: None, ..self },
            if attempts < WRITE_RETRIES {
                IndexActionV::Read
            } else {
                IndexActionV::Done
            },
        )
    }

    /// The index was read: the plan follows from it. Without a change there is nothing to do.
    pub open spec fn on_read(self, index: SessionIndexV) -> (IndexUpdateV, IndexActionV) {
        let (planned, id) = index.reconcile(self.name, self.current, self.now);
        (
            IndexUpdateV { assigned: Some(id), planned, ..self },
            if planned is Some {
                IndexActionV::Reread
            } else {
                IndexActionV::Done
            },
        )
    }

    /// The index was read again. It is written only if nobody else wrote it meanwhile.
    pub open spec fn on_reread(self, index: SessionIndexV) -> (IndexUpdateV, IndexActionV) {
        match self.planned {
            Some(plan) => if plan.revision == index.revision {
                (
                    IndexUpdateV { planned: None, ..self },
                    IndexActionV::Write(
                        SessionIndexV { revision: next_revision(plan.revision), ..plan },
                    ),
                )
            } else {
                self.retry()
            },
            None => (self, IndexActionV::Done),
        }
    }

    pub open spec fn on_written(self, written: bool) -> (IndexUpdateV, IndexActionV) {
        if written {
            (self, IndexActionV::Done)
        } else {
            self.retry()
        }
    }
}

impl IndexUpdate {
    fn retry(&mut self) -> (r: IndexAction)
        ensures
            (final(self)@, r@) == old(self)@.retry(),
    {
        if self.attempts < WRITE_RETRIES {
            self.attempts = self.attempts + 1;
        }
        self.planned = None;
        if self.attempts < WRITE_RETRIES {
            IndexAction::Read
        } else {
            IndexAction::Done
        }
    }

    /// Takes in the index as it was read.
    pub fn on_read(&mut self, index: &SessionIndex) -> (r: IndexAction)
        ensures
            (final(self)@, r@) == old(self)@.on_read(index@),
    {
        let (planned, id) = match &self.current {
            Some(current) => reconcile(
                index,
                self.name.as_str(),
                Some(current.as_str()),
                self.now,
            ),
            None => reconcile(index, self.name.as_str(), None, self.now),
        };
        let change = planned.is_some();
        self.assigned = Some(id);
        self.planned = planned;
        if change {
            IndexAction::Reread
        } else {
            IndexAction::Done
        }
    }

    /// Takes in the index as it was read again.
    pub fn on_reread(&mut self, index: &SessionIndex) -> (r: IndexAction)
        ensures
            (final(self)@, r@) == old(self)@.on_reread(index@),
    {
        match self.planned.take() {
            Some(plan) => {
                if plan.revision != index.revision {
                    return self.retry();
                }
                let mut plan = plan;
                plan.revision = plan.revision.saturating_add(1);
                IndexAction::Write(plan)
            },
            None => IndexAction::Done,
        }
    }

    /// Takes in whether the index could be written.
    pub fn on_written(&mut self, written: bool) -> (r: IndexAction)
        ensures
            (final(self)@, r@) == old(self)@.on_written(written),
    {
        if written {
            IndexAction::Done
        } else {
            self.retry()
        }
    }
}

// --- laws ---

/// Files of the store lie in the host folder, and no path leads up out of it.
pub proof fn law_paths_stay_inside(rel: Seq<char>)
    ensures
        inside_host(rel) is Some ==> inside_host(rel)->0.len() > 1 && inside_host(rel)->0[0]
            == HOST_DIR@ && !inside_host(rel)->0.contains(".."@),
{
    if let Some(path) = inside_host(rel) {
        reveal_strlit("host");
        reveal_strlit("..");
        assert(HOST_DIR@.len() == 4);
        assert(".."@.len() == 2);
        if path.contains(".."@) {
            let i = choose|i: int| 0 <= i < path.len() && path[i] == ".."@;
            assert(i > 0);
            assert(components(rel)[i - 1] == ".."@);
        }
    }
}

/// Opening the store gives up after a few levels: each failure leads further up, and not
/// beyond the limit.
pub proof fn law_opening_ends(s: StateV)
    requires
        s.disk.store is Opening,
        lies_under(s.disk.store->Opening_0, s.disk.store->Opening_1),
    ensures
        s.host_folder_failed().disk.store is Opening ==> {
            let t = s.host_folder_failed().disk.store;
            t->Opening_0 == s.disk.store->Opening_0 && t->Opening_1.len() + 1
                == s.disk.store->Opening_1.len() && lies_under(t->Opening_0, t->Opening_1)
                && t->Opening_0.len() - t->Opening_1.len() <= ANCESTOR_LIMIT
        },
{
    if let StoreV::Opening(target, attempt) = s.disk.store {
        if let Some(next) = ancestor(target, attempt) {
            assert(target.take(next.len() as int) =~= next) by {
                assert(target.take(attempt.len() as int).take(next.len() as int) =~= target.take(
                    next.len() as int,
                ));
            }
        }
    }
}

/// The folders made below the one that was reached are what the store lacks there.
pub proof fn law_descend_completes(target: Seq<Seq<char>>, reached: Seq<Seq<char>>)
    requires
        missing_part(target, reached) is Some,
    ensures
        reached + missing_part(target, reached)->0.drop_first() == target,
{
    let path = missing_part(target, reached)->0;
    assert(path.drop_first() =~= target.skip(reached.len() as int));
    assert(reached + target.skip(reached.len() as int) =~= target);
}

proof fn lemma_largest_session(sessions: Seq<SessionEntryV>)
    ensures
        largest_session(sessions) < ID_MAX,
        forall|i: int|
            0 <= i < sessions.len() && parsed((#[trigger] sessions[i]).id, u64::MAX as nat) is Some
                && parsed(sessions[i].id, u64::MAX as nat)->0 < ID_MAX ==> parsed(
                sessions[i].id,
                u64::MAX as nat,
            )->0 <= largest_session(sessions),
    decreases sessions.len(),
{
    if sessions.len() > 0 {
        let front = sessions.drop_last();
        lemma_largest_session(front);
        assert forall|i: int|
            0 <= i < sessions.len() && parsed((#[trigger] sessions[i]).id, u64::MAX as nat) is Some
                && parsed(sessions[i].id, u64::MAX as nat)->0 < ID_MAX implies parsed(
            sessions[i].id,
            u64::MAX as nat,
        )->0 <= largest_session(sessions) by {
            if i < front.len() {
                assert(front[i] == sessions[i]);
            }
        }
    }
}

/// Whether an id stands for the largest number that an id can be.
pub open spec fn at_the_end(id: Seq<char>) -> bool {
    parsed(id, u64::MAX as nat) == Some(ID_MAX as nat)
}

/// A new id can name a directory, and no session has it. Only where ids up to the very last
/// one are in use, and the last one too, none is left.
pub proof fn law_new_id_is_fresh(sessions: Seq<SessionEntryV>, i: int)
    requires
        0 <= i < sessions.len(),
        largest_session(sessions) + 1 < ID_MAX || !at_the_end(sessions[i].id),
    ensures
        id_like(fresh_id(sessions)),
        fresh_id(sessions) != sessions[i].id,
{
    lemma_largest_session(sessions);
    let n = largest_session(sessions) + 1;
    lemma_number_of_digits(n);
    lemma_digits_len(n, ID_MAX as nat);
    lemma_twelve_digits();
    lemma_parsed_digits(n, u64::MAX as nat);
    if fresh_id(sessions) == sessions[i].id {
        assert(parsed(sessions[i].id, u64::MAX as nat) == Some(n));
    }
}

proof fn lemma_twelve_digits()
    ensures
        digits(ID_MAX as nat).len() == 12,
{
    reveal_with_fuel(digits, 13);
}

/// Bringing a sound index up to date leaves a sound index with an entry for the session.
pub proof fn law_reconcile_is_sound(
    index: SessionIndexV,
    name: Seq<char>,
    current: Option<Seq<char>>,
    now: u64,
)
    requires
        index_ok(index),
        name.len() > 0,
        !name.contains('\0'),
        current is Some ==> id_like(current->0),
    ensures
        id_like(index.reconcile(name, current, now).1),
        index.reconcile(name, current, now).0 is Some ==> index_ok(
            index.reconcile(name, current, now).0->0,
        ),
        current is Some ==> index.reconcile(name, current, now).1 == current->0,
{
    let r = index.reconcile(name, current, now);
    lemma_largest_session(index.sessions);
    let n = largest_session(index.sessions) + 1;
    lemma_number_of_digits(n);
    lemma_digits_len(n, ID_MAX as nat);
    lemma_twelve_digits();
    match current {
        Some(id) => {
            lemma_id_place(index.sessions, id);
        },
        None => {
            lemma_name_place(index.sessions, name);
        },
    }
    if let Some(next) = r.0 {
        assert forall|i: int| 0 <= i < next.sessions.len() implies entry_ok(
            #[trigger] next.sessions[i],
        ) by {
            if i < index.sessions.len() {
                assert(entry_ok(index.sessions[i]));
            }
        }
    }
}

proof fn lemma_id_place(sessions: Seq<SessionEntryV>, id: Seq<char>)
    ensures
        id_place(sessions, id) < sessions.len() ==> sessions[id_place(sessions, id) as int].id
            == id,
    decreases sessions.len(),
{
    if sessions.len() > 0 && sessions[0].id != id {
        lemma_id_place(sessions.drop_first(), id);
    }
}

proof fn lemma_name_place(sessions: Seq<SessionEntryV>, name: Seq<char>)
    ensures
        name_place(sessions, name) <= sessions.len(),
        name_place(sessions, name) < sessions.len() ==> sessions[name_place(
            sessions,
            name,
        ) as int].name == name,
    decreases sessions.len(),
{
    if sessions.len() > 0 && sessions[0].name != name {
        lemma_name_place(sessions.drop_first(), name);
    }
}

/// A session that comes back under the same name gets the same id.
pub proof fn law_same_name_same_id(index: SessionIndexV, name: Seq<char>, now: u64, again: u64)
    ensures
        index.reconcile(name, None, now).0 is Some,
        index.reconcile(name, None, now).0->0.reconcile(name, None, again).1 == index.reconcile(
            name,
            None,
            now,
        ).1,
{
    let (next, id) = index.reconcile(name, None, now);
    let n = name_place(index.sessions, name);
    lemma_name_place(index.sessions, name);
    assert(next->0.sessions[n as int].name == name);
    assert(next->0.sessions[n as int].id == id);
    lemma_name_place_same(index.sessions, next->0.sessions, name, n);
}

proof fn lemma_name_place_same(
    a: Seq<SessionEntryV>,
    b: Seq<SessionEntryV>,
    name: Seq<char>,
    n: nat,
)
    requires
        n == name_place(a, name),
        n <= a.len() <= b.len(),
        n < b.len(),
        b[n as int].name == name,
        forall|i: int| 0 <= i < n ==> (#[trigger] b[i]).name == a[i].name,
    ensures
        name_place(b, name) == n,
    decreases a.len(),
{
    if n > 0 {
        assert(a[0].name != name);
        assert(b[0].name == a[0].name);
        let x = a.drop_first();
        let y = b.drop_first();
        assert forall|i: int| 0 <= i < n - 1 implies (#[trigger] y[i]).name == x[i].name by {
            assert(y[i] == b[i + 1]);
            assert(x[i] == a[i + 1]);
        }
        lemma_name_place_same(x, y, name, (n - 1) as nat);
    }
}

/// An update is given up after a few tries, and what it writes is based on what is in place.
pub proof fn law_updates_end(u: IndexUpdateV, index: SessionIndexV)
    requires
        u.attempts < WRITE_RETRIES,
    ensures
        u.retry().0.attempts == u.attempts + 1,
        u.retry().1 is Read ==> u.retry().0.attempts < WRITE_RETRIES,
        u.on_reread(index).1 is Write ==> u.planned is Some && u.planned->0.revision
            == index.revision && u.on_reread(index).1->Write_0.revision == next_revision(
            index.revision,
        ),
{
}

} // verus!
