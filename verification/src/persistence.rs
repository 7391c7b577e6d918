//! Persistence: where the store lies and what the session index holds.

use vstd::prelude::*;
use vstd::utf8::encode_utf8;

use crate::ids::{group_views, opt_view, views};
use crate::text::{
    all_digits, chars_of, decimal, digits, is_digit, lemma_digits_without, lemma_number_of_digits,
    lemma_until, lemma_until_prefix, parse_u64, parsed, pieces, same, split, text_of,
};

verus! {

broadcast use group_views;

/// The state of the store. Paths are absolute and given by their components.
#[derive(Debug)]
pub enum Store {
    /// Nothing was tried yet.
    Idle,
    /// The host folder is being switched: the destination, and the place asked for now.
    Opening(Vec<String>, Vec<String>),
    /// The host folder is the store.
    Ready,
    /// There is no store. The sidebar works without one.
    Unavailable,
}

#[verifier::ext_equal]
pub enum StoreV {
    Idle,
    Opening(Seq<Seq<char>>, Seq<Seq<char>>),
    Ready,
    Unavailable,
}

impl View for Store {
    type V = StoreV;

    open spec fn view(&self) -> StoreV {
        match self {
            Store::Idle => StoreV::Idle,
            Store::Opening(target, attempt) => StoreV::Opening(views(target@), views(attempt@)),
            Store::Ready => StoreV::Ready,
            Store::Unavailable => StoreV::Unavailable,
        }
    }
}

/// The name of the store.
pub const STORE_DIR: &'static str = "fujin";

/// Where the plugin sees the folder that the host points it to.
pub const HOST_DIR: &'static str = "host";

/// Where files are written before they replace others.
pub const TMP_DIR: &'static str = "sessions/.tmp";

/// The index of sessions.
pub const INDEX_FILE: &'static str = "session_index.toml";

/// The version of the index that is understood.
pub const SCHEMA_VERSION: u32 = 1;

/// How far up a missing store is looked for.
pub const ANCESTOR_LIMIT: usize = 3;

/// How often an update of the index is tried.
pub const WRITE_RETRIES: usize = 3;

/// The longest internal id.
pub const ID_MAX_LEN: usize = 12;

/// The largest internal id.
pub const ID_MAX: u64 = 999_999_999_999;

// --- paths ---

/// A component that names something: neither empty nor the place itself.
pub open spec fn names_something(part: Seq<char>) -> bool {
    part.len() > 0 && part != "."@
}

pub open spec fn named_parts(parts: Seq<Seq<char>>) -> Seq<Seq<char>>
    decreases parts.len(),
{
    if parts.len() == 0 {
        Seq::empty()
    } else {
        let front = named_parts(parts.drop_last());
        if names_something(parts.last()) {
            front.push(parts.last())
        } else {
            front
        }
    }
}

/// The components of a path.
pub open spec fn components(path: Seq<char>) -> Seq<Seq<char>> {
    named_parts(pieces(path, '/'))
}

pub open spec fn is_absolute(path: Seq<char>) -> bool {
    path.len() > 0 && path[0] == '/'
}

/// The absolute path in a variable of the environment. A relative one counts as not set.
pub open spec fn absolute(value: Option<Seq<char>>) -> Option<Seq<Seq<char>>> {
    match value {
        Some(path) => if is_absolute(path) {
            Some(components(path))
        } else {
            None
        },
        None => None,
    }
}

/// The store: under `XDG_CONFIG_HOME`, or else under `.config` in `HOME`.
pub open spec fn store_path(xdg: Option<Seq<char>>, home: Option<Seq<char>>) -> Option<
    Seq<Seq<char>>,
> {
    match absolute(xdg) {
        Some(path) => Some(path.push(STORE_DIR@)),
        None => match absolute(home) {
            Some(path) => Some(path.push(".config"@).push(STORE_DIR@)),
            None => None,
        },
    }
}

pub open spec fn lies_under(path: Seq<Seq<char>>, above: Seq<Seq<char>>) -> bool {
    above.len() <= path.len() && path.take(above.len() as int) == above
}

/// Where to look next when `attempt` is not there: one level up, but not too far up.
pub open spec fn ancestor(target: Seq<Seq<char>>, attempt: Seq<Seq<char>>) -> Option<
    Seq<Seq<char>>,
> {
    if lies_under(target, attempt) && target.len() - attempt.len() < ANCESTOR_LIMIT
        && attempt.len() > 0 {
        Some(attempt.drop_last())
    } else {
        None
    }
}

/// What is missing below the folder that was reached, as the plugin sees it.
pub open spec fn missing_part(target: Seq<Seq<char>>, reached: Seq<Seq<char>>) -> Option<
    Seq<Seq<char>>,
> {
    if lies_under(target, reached) && reached.len() < target.len() {
        Some(seq![HOST_DIR@] + target.skip(reached.len() as int))
    } else {
        None
    }
}

/// A relative path that stays below its start.
pub open spec fn stays_below(rel: Seq<char>) -> bool {
    rel.len() > 0 && !is_absolute(rel) && pieces(rel, '/')[0] != "."@ && !components(rel).contains(
        ".."@,
    ) && components(rel).len() > 0
}

/// The path of a file of the store as the plugin sees it.
pub open spec fn inside_host(rel: Seq<char>) -> Option<Seq<Seq<char>>> {
    if stays_below(rel) {
        Some(seq![HOST_DIR@] + components(rel))
    } else {
        None
    }
}

/// Takes a path apart. A step up stays a component of its own.
pub fn path_components(path: &str) -> (r: Vec<String>)
    ensures
        views(r@) == components(path@),
{
    let parts = split(path, '/');
    let ghost v = views(parts@);
    let mut out: Vec<String> = Vec::new();
    let mut i: usize = 0;
    assert(v.take(0) =~= Seq::empty());
    while i < parts.len()
        invariant
            i <= parts.len(),
            v == views(parts@),
            views(out@) == named_parts(v.take(i as int)),
        decreases parts.len() - i,
    {
        assert(v.take(i + 1).drop_last() =~= v.take(i as int));
        assert(v.take(i + 1).last() == parts[i as int]@);
        if !parts[i].as_str().is_empty() && !same(parts[i].as_str(), ".") {
            out.push(parts[i].clone());
        }
        i += 1;
    }
    assert(v.take(i as int) =~= v);
    out
}

fn starts_at_root(path: &str) -> (r: bool)
    ensures
        r == is_absolute(path@),
{
    let chars = chars_of(path);
    chars.len() > 0 && chars[0] == '/'
}

/// The store, by the variables `XDG_CONFIG_HOME` and `HOME`.
pub fn store_dir(xdg: Option<&str>, home: Option<&str>) -> (r: Option<Vec<String>>)
    ensures
        r is Some == store_path(opt_view(xdg), opt_view(home)) is Some,
        r is Some ==> views((r->0)@) == store_path(opt_view(xdg), opt_view(home))->0,
{
    if let Some(path) = xdg {
        if starts_at_root(path) {
            let mut parts = path_components(path);
            parts.push(STORE_DIR.to_owned());
            return Some(parts);
        }
    }
    if let Some(path) = home {
        if starts_at_root(path) {
            let mut parts = path_components(path);
            parts.push(".config".to_owned());
            parts.push(STORE_DIR.to_owned());
            return Some(parts);
        }
    }
    None
}

/// Whether two paths are the same.
pub fn same_path(a: &Vec<String>, b: &Vec<String>) -> (r: bool)
    ensures
        r == (views(a@) == views(b@)),
{
    let ghost x = views(a@);
    let ghost y = views(b@);
    assert(x.len() == a.len() && y.len() == b.len());
    if a.len() != b.len() {
        return false;
    }
    let under = is_under(a, b);
    assert(x.take(y.len() as int) =~= x);
    under
}

fn is_under(path: &Vec<String>, above: &Vec<String>) -> (r: bool)
    ensures
        r == lies_under(views(path@), views(above@)),
{
    let ghost p = views(path@);
    let ghost a = views(above@);
    if above.len() > path.len() {
        return false;
    }
    let mut i: usize = 0;
    while i < above.len()
        invariant
            i <= above.len(),
            above.len() <= path.len(),
            p == views(path@),
            a == views(above@),
            forall|j: int| 0 <= j < i ==> p[j] == a[j],
        decreases above.len() - i,
    {
        assert(p[i as int] == path[i as int]@ && a[i as int] == above[i as int]@);
        if !same(path[i].as_str(), above[i].as_str()) {
            assert(p.take(a.len() as int)[i as int] != a[i as int]);
            return false;
        }
        i += 1;
    }
    assert(p.take(a.len() as int) =~= a);
    true
}

fn copy_parts(parts: &Vec<String>, from: usize, to: usize) -> (r: Vec<String>)
    requires
        from <= to <= parts.len(),
    ensures
        views(r@) == views(parts@).subrange(from as int, to as int),
{
    let ghost v = views(parts@);
    let mut out: Vec<String> = Vec::new();
    let mut i: usize = from;
    assert(v.subrange(from as int, from as int) =~= Seq::empty());
    while i < to
        invariant
            from <= i <= to <= parts.len(),
            v == views(parts@),
            views(out@) == v.subrange(from as int, i as int),
        decreases to - i,
    {
        out.push(parts[i].clone());
        assert(v[i as int] == parts[i as int]@);
        assert(v.subrange(from as int, i + 1) =~= v.subrange(from as int, i as int).push(
            v[i as int],
        ));
        i += 1;
    }
    out
}

/// Where to look next when `attempt` is not there.
pub fn next_ancestor(target: &Vec<String>, attempt: &Vec<String>) -> (r: Option<Vec<String>>)
    ensures
        r is Some == ancestor(views(target@), views(attempt@)) is Some,
        r is Some ==> views((r->0)@) == ancestor(views(target@), views(attempt@))->0,
{
    if !is_under(target, attempt) || target.len() - attempt.len() >= ANCESTOR_LIMIT
        || attempt.len() == 0 {
        return None;
    }
    let up = copy_parts(attempt, 0, attempt.len() - 1);
    assert(views(up@) =~= views(attempt@).drop_last());
    Some(up)
}

/// The folders to make below the one that was reached.
pub fn descend(target: &Vec<String>, reached: &Vec<String>) -> (r: Option<Vec<String>>)
    ensures
        r is Some == missing_part(views(target@), views(reached@)) is Some,
        r is Some ==> views((r->0)@) == missing_part(views(target@), views(reached@))->0,
{
    if !is_under(target, reached) || reached.len() >= target.len() {
        return None;
    }
    let mut rest = copy_parts(target, reached.len(), target.len());
    let mut path: Vec<String> = Vec::new();
    path.push(HOST_DIR.to_owned());
    let ghost head = views(path@);
    let ghost tail = views(rest@);
    path.append(&mut rest);
    assert(views(path@) =~= head + tail);
    assert(tail =~= views(target@).skip(reached.len() as int));
    assert(head =~= seq![HOST_DIR@]);
    Some(path)
}

/// The path of a file of the store as the plugin sees it. Paths that could lead out of the
/// store are refused.
pub fn guest_path(rel: &str) -> (r: Option<Vec<String>>)
    ensures
        r is Some == inside_host(rel@) is Some,
        r is Some ==> views((r->0)@) == inside_host(rel@)->0,
{
    if rel.is_empty() || starts_at_root(rel) {
        return None;
    }
    let parts = split(rel, '/');
    proof {
        lemma_until(rel@, '/');
    }
    assert(pieces(rel@, '/').len() > 0);
    assert(pieces(rel@, '/')[0] == parts[0]@);
    if same(parts[0].as_str(), ".") {
        return None;
    }
    let mut rest = path_components(rel);
    if rest.len() == 0 || has_part(&rest, "..") {
        return None;
    }
    let mut path: Vec<String> = Vec::new();
    path.push(HOST_DIR.to_owned());
    let ghost head = views(path@);
    let ghost tail = views(rest@);
    path.append(&mut rest);
    assert(views(path@) =~= head + tail);
    assert(head =~= seq![HOST_DIR@]);
    Some(path)
}

fn has_part(parts: &Vec<String>, part: &str) -> (r: bool)
    ensures
        r == views(parts@).contains(part@),
{
    let ghost v = views(parts@);
    let mut i: usize = 0;
    while i < parts.len()
        invariant
            i <= parts.len(),
            v == views(parts@),
            forall|j: int| 0 <= j < i ==> v[j] != part@,
        decreases parts.len() - i,
    {
        assert(v[i as int] == parts[i as int]@);
        if same(parts[i].as_str(), part) {
            return true;
        }
        i += 1;
    }
    false
}

// --- names of temporary files ---

pub const FNV_START: u64 = 0xcbf2_9ce4_8422_2325;

pub const FNV_PRIME: u64 = 0x0000_0100_0000_01b3;

/// The 64-bit FNV-1a hash.
pub open spec fn fnv(bytes: Seq<u8>) -> u64
    decreases bytes.len(),
{
    if bytes.len() == 0 {
        FNV_START
    } else {
        ((fnv(bytes.drop_last()) ^ (bytes.last() as u64)) * FNV_PRIME % 0x1_0000_0000_0000_0000)
            as u64
    }
}

pub fn fnv1a(bytes: &[u8]) -> (r: u64)
    ensures
        r == fnv(bytes@),
{
    let mut hash: u64 = FNV_START;
    let mut i: usize = 0;
    assert(bytes@.take(0) =~= Seq::empty());
    while i < bytes.len()
        invariant
            i <= bytes.len(),
            hash == fnv(bytes@.take(i as int)),
        decreases bytes.len() - i,
    {
        assert(bytes@.take(i + 1).drop_last() =~= bytes@.take(i as int));
        hash = (hash ^ (bytes[i] as u64)).wrapping_mul(FNV_PRIME);
        i += 1;
    }
    assert(bytes@.take(i as int) =~= bytes@);
    hash
}

pub open spec fn hex_digit(d: nat) -> char {
    if d < 10 {
        ('0' as nat + d) as char
    } else {
        ('a' as nat + d - 10) as char
    }
}

/// The last `len` hexadecimal digits of a number.
pub open spec fn hex(n: nat, len: nat) -> Seq<char>
    decreases len,
{
    if len == 0 {
        Seq::empty()
    } else {
        hex(n / 16, (len - 1) as nat).push(hex_digit(n % 16))
    }
}

fn spell_hex_digit(d: u8) -> (r: char)
    requires
        d < 16,
    ensures
        r == hex_digit(d as nat),
{
    if d < 10 {
        (48u8 + d) as char
    } else {
        (87u8 + d) as char
    }
}

fn spell_hex(n: u64, len: usize) -> (r: Vec<char>)
    ensures
        r@ == hex(n as nat, len as nat),
    decreases len,
{
    if len == 0 {
        return Vec::new();
    }
    let mut out = spell_hex(n / 16, len - 1);
    out.push(spell_hex_digit((n % 16) as u8));
    out
}

/// The text with underscores in place of slashes.
pub open spec fn flattened(rel: Seq<char>) -> Seq<char> {
    rel.map_values(
        |c: char|
            if c == '/' {
                '_'
            } else {
                c
            },
    )
}

/// Where a file is written before it replaces another. The name holds the id of the instance
/// and a hash of the session's name, which may hold characters that no file name can.
pub open spec fn tmp_name(rel: Seq<char>, plugin_id: u32, session: Seq<char>) -> Seq<char> {
    TMP_DIR@ + seq!['/'] + hex(fnv(encode_utf8(session)) as nat, 16) + seq!['-'] + digits(
        plugin_id as nat,
    ) + seq!['-'] + flattened(rel)
}

pub fn tmp_rel(rel: &str, plugin_id: u32, session: &str) -> (r: String)
    ensures
        r@ == tmp_name(rel@, plugin_id, session@),
{
    let mut out = TMP_DIR.to_owned();
    out.push('/');
    let hash = spell_hex(fnv1a(session.as_bytes()), 16);
    let hash = text_of(&hash);
    out.push_str(hash.as_str());
    out.push('-');
    let id = decimal(plugin_id as u128);
    out.push_str(id.as_str());
    out.push('-');
    let chars = chars_of(rel);
    let mut flat: Vec<char> = Vec::new();
    let mut i: usize = 0;
    while i < chars.len()
        invariant
            i <= chars.len(),
            chars@ == rel@,
            flat@ =~= flattened(rel@).take(i as int),
        decreases chars.len() - i,
    {
        if chars[i] == '/' {
            flat.push('_');
        } else {
            flat.push(chars[i]);
        }
        i += 1;
    }
    assert(flat@ =~= flattened(rel@));
    let flat = text_of(&flat);
    out.push_str(flat.as_str());
    assert(out@ =~= tmp_name(rel@, plugin_id, session@));
    out
}

// --- the session index ---

/// A session: its directory name, its name, and when it was last seen.
#[derive(Debug)]
pub struct SessionEntry {
    pub id: String,
    pub name: String,
    /// In seconds since 1970.
    pub last_seen: u64,
}

#[derive(Debug)]
pub struct SessionIndex {
    pub version: u32,
    /// Counts the writes, to notice writes of others.
    pub revision: u64,
    pub sessions: Vec<SessionEntry>,
}

#[verifier::ext_equal]
pub struct SessionEntryV {
    pub id: Seq<char>,
    pub name: Seq<char>,
    pub last_seen: u64,
}

#[verifier::ext_equal]
pub struct SessionIndexV {
    pub version: u32,
    pub revision: u64,
    pub sessions: Seq<SessionEntryV>,
}

impl View for SessionEntry {
    type V = SessionEntryV;

    open spec fn view(&self) -> SessionEntryV {
        SessionEntryV { id: self.id@, name: self.name@, last_seen: self.last_seen }
    }
}

impl View for SessionIndex {
    type V = SessionIndexV;

    open spec fn view(&self) -> SessionIndexV {
        SessionIndexV {
            version: self.version,
            revision: self.revision,
            sessions: views(self.sessions@),
        }
    }
}

impl Clone for SessionEntry {
    fn clone(&self) -> (r: SessionEntry)
        ensures
            r@ == self@,
    {
        SessionEntry {
            id: self.id.clone(),
            name: self.name.clone(),
            last_seen: self.last_seen,
        }
    }
}

impl Clone for SessionIndex {
    fn clone(&self) -> (r: SessionIndex)
        ensures
            r@ == self@,
    {
        let ghost v = views(self.sessions@);
        let mut sessions: Vec<SessionEntry> = Vec::new();
        let mut i: usize = 0;
        while i < self.sessions.len()
            invariant
                i <= self.sessions.len(),
                v == views(self.sessions@),
                views(sessions@) =~= v.take(i as int),
            decreases self.sessions.len() - i,
        {
            assert(v[i as int] == self.sessions[i as int]@);
            sessions.push(self.sessions[i].clone());
            i += 1;
        }
        assert(views(sessions@) =~= v);
        SessionIndex { version: self.version, revision: self.revision, sessions }
    }
}

/// An id that can name a directory: a few digits.
pub open spec fn id_like(id: Seq<char>) -> bool {
    0 < id.len() <= ID_MAX_LEN && all_digits(id)
}

pub open spec fn entry_ok(e: SessionEntryV) -> bool {
    id_like(e.id) && e.name.len() > 0 && !e.name.contains('\0')
}

/// An index that can be used.
pub open spec fn index_ok(index: SessionIndexV) -> bool {
    index.version == SCHEMA_VERSION && forall|i: int|
        0 <= i < index.sessions.len() ==> entry_ok(#[trigger] index.sessions[i])
}

impl SessionIndexV {
    pub open spec fn blank() -> SessionIndexV {
        SessionIndexV { version: SCHEMA_VERSION, revision: 0, sessions: Seq::empty() }
    }

}

pub open spec fn id_place(sessions: Seq<SessionEntryV>, id: Seq<char>) -> nat
    decreases sessions.len(),
{
    if sessions.len() == 0 || sessions[0].id == id {
        0
    } else {
        1 + id_place(sessions.drop_first(), id)
    }
}

pub open spec fn name_place(sessions: Seq<SessionEntryV>, name: Seq<char>) -> nat
    decreases sessions.len(),
{
    if sessions.len() == 0 || sessions[0].name == name {
        0
    } else {
        1 + name_place(sessions.drop_first(), name)
    }
}

/// The largest id below the limit; 0 where there is none.
pub open spec fn largest_session(sessions: Seq<SessionEntryV>) -> nat
    decreases sessions.len(),
{
    if sessions.len() == 0 {
        0
    } else {
        let front = largest_session(sessions.drop_last());
        match parsed(sessions.last().id, u64::MAX as nat) {
            Some(n) => if n < ID_MAX && n > front {
                n
            } else {
                front
            },
            None => front,
        }
    }
}

pub open spec fn fresh_id(sessions: Seq<SessionEntryV>) -> Seq<char> {
    digits(largest_session(sessions) + 1)
}

impl SessionIndexV {
    pub open spec fn with_sessions(self, sessions: Seq<SessionEntryV>) -> SessionIndexV {
        SessionIndexV { sessions, ..self }
    }

    /// The index for a session of this name, where it has to change, and the session's id. A
    /// session that has an id keeps it when its name changes; a new one takes over the id of a
    /// session of the same name.
    pub open spec fn reconcile(self, name: Seq<char>, current: Option<Seq<char>>, now: u64) -> (
        Option<SessionIndexV>,
        Seq<char>,
    ) {
        match current {
            Some(id) => {
                let n = id_place(self.sessions, id);
                if n < self.sessions.len() {
                    let e = self.sessions[n as int];
                    if e.name == name {
                        (None, id)
                    } else {
                        (
                            Some(
                                self.with_sessions(
                                    self.sessions.update(n as int, SessionEntryV { name, ..e }),
                                ),
                            ),
                            id,
                        )
                    }
                } else {
                    (
                        Some(
                            self.with_sessions(
                                self.sessions.push(SessionEntryV { id, name, last_seen: now }),
                            ),
                        ),
                        id,
                    )
                }
            },
            None => {
                let n = name_place(self.sessions, name);
                if n < self.sessions.len() {
                    let e = self.sessions[n as int];
                    (
                        Some(
                            self.with_sessions(
                                self.sessions.update(
                                    n as int,
                                    SessionEntryV { last_seen: now, ..e },
                                ),
                            ),
                        ),
                        e.id,
                    )
                } else {
                    let id = fresh_id(self.sessions);
                    (
                        Some(
                            self.with_sessions(
                                self.sessions.push(SessionEntryV { id, name, last_seen: now }),
                            ),
                        ),
                        id,
                    )
                }
            },
        }
    }
}

pub fn valid_internal_id(id: &str) -> (r: bool)
    ensures
        r == id_like(id@),
{
    let chars = chars_of(id);
    if chars.len() == 0 || chars.len() > ID_MAX_LEN {
        return false;
    }
    let mut i: usize = 0;
    while i < chars.len()
        invariant
            i <= chars.len(),
            chars@ == id@,
            forall|j: int| 0 <= j < i ==> is_digit(#[trigger] chars@[j]),
        decreases chars.len() - i,
    {
        let c = chars[i];
        if !('0' <= c && c <= '9') {
            assert(!is_digit(id@[i as int]));
            return false;
        }
        i += 1;
    }
    true
}

fn has_nul(s: &str) -> (r: bool)
    ensures
        r == s@.contains('\0'),
{
    let chars = chars_of(s);
    let mut i: usize = 0;
    while i < chars.len()
        invariant
            i <= chars.len(),
            chars@ == s@,
            forall|j: int| 0 <= j < i ==> chars@[j] != '\0',
        decreases chars.len() - i,
    {
        if chars[i] == '\0' {
            assert(s@[i as int] == '\0');
            return true;
        }
        i += 1;
    }
    false
}

/// The index if it can be used.
pub fn validate_index(index: SessionIndex) -> (r: Option<SessionIndex>)
    ensures
        r is Some == index_ok(index@),
        r is Some ==> (r->0)@ == index@,
{
    if index.version != SCHEMA_VERSION {
        return None;
    }
    let ghost v = views(index.sessions@);
    let mut i: usize = 0;
    while i < index.sessions.len()
        invariant
            i <= index.sessions.len(),
            v == views(index.sessions@),
            forall|j: int| 0 <= j < i ==> entry_ok(#[trigger] v[j]),
        decreases index.sessions.len() - i,
    {
        let entry = &index.sessions[i];
        assert(v[i as int] == entry@);
        if !valid_internal_id(entry.id.as_str()) || entry.name.as_str().is_empty() || has_nul(
            entry.name.as_str(),
        ) {
            assert(!entry_ok(index@.sessions[i as int]));
            return None;
        }
        i += 1;
    }
    Some(index)
}

impl SessionIndex {
    /// The index without sessions.
    pub fn empty() -> (r: SessionIndex)
        ensures
            r@ == SessionIndexV::blank(),
    {
        SessionIndex { version: SCHEMA_VERSION, revision: 0, sessions: Vec::new() }
    }

    /// What was read, if it can be used; else the index without sessions.
    pub fn usable(read: Option<SessionIndex>) -> (r: SessionIndex)
        ensures
            r@ == (if read is Some && index_ok((read->0)@) {
                (read->0)@
            } else {
                SessionIndexV::blank()
            }),
    {
        match read {
            Some(index) => match validate_index(index) {
                Some(index) => index,
                None => SessionIndex::empty(),
            },
            None => SessionIndex::empty(),
        }
    }

    fn find_id(&self, id: &str) -> (r: Option<usize>)
        ensures
            r is Some == (id_place(self@.sessions, id@) < self@.sessions.len()),
            r is Some ==> r->0 == id_place(self@.sessions, id@) && r->0 < self.sessions.len(),
    {
        let ghost v = self@.sessions;
        let mut i: usize = 0;
        assert(v.skip(0) =~= v);
        while i < self.sessions.len()
            invariant
                i <= self.sessions.len(),
                v == self@.sessions,
                id_place(v, id@) == i + id_place(v.skip(i as int), id@),
            decreases self.sessions.len() - i,
        {
            let ghost rest = v.skip(i as int);
            assert(rest[0] == self.sessions[i as int]@);
            assert(rest.drop_first() =~= v.skip(i + 1));
            if same(self.sessions[i].id.as_str(), id) {
                return Some(i);
            }
            i += 1;
        }
        assert(v.skip(i as int) =~= Seq::empty());
        None
    }

    fn find_name(&self, name: &str) -> (r: Option<usize>)
        ensures
            r is Some == (name_place(self@.sessions, name@) < self@.sessions.len()),
            r is Some ==> r->0 == name_place(self@.sessions, name@) && r->0 < self.sessions.len(),
    {
        let ghost v = self@.sessions;
        let mut i: usize = 0;
        assert(v.skip(0) =~= v);
        while i < self.sessions.len()
            invariant
                i <= self.sessions.len(),
                v == self@.sessions,
                name_place(v, name@) == i + name_place(v.skip(i as int), name@),
            decreases self.sessions.len() - i,
        {
            let ghost rest = v.skip(i as int);
            assert(rest[0] == self.sessions[i as int]@);
            assert(rest.drop_first() =~= v.skip(i + 1));
            if same(self.sessions[i].name.as_str(), name) {
                return Some(i);
            }
            i += 1;
        }
        assert(v.skip(i as int) =~= Seq::empty());
        None
    }

    fn push_session(&mut self, id: String, name: String, now: u64)
        ensures
            final(self)@ == old(self)@.with_sessions(
                old(self)@.sessions.push(SessionEntryV { id: id@, name: name@, last_seen: now }),
            ),
    {
        self.sessions.push(SessionEntry { id, name, last_seen: now });
    }

    /// An id that no session has.
    pub fn next_internal_id(&self) -> (r: String)
        ensures
            r@ == fresh_id(self@.sessions),
    {
        let ghost v = self@.sessions;
        let mut largest: u64 = 0;
        let mut i: usize = 0;
        assert(v.take(0) =~= Seq::empty());
        while i < self.sessions.len()
            invariant
                i <= self.sessions.len(),
                v == self@.sessions,
                largest == largest_session(v.take(i as int)),
                largest < ID_MAX,
            decreases self.sessions.len() - i,
        {
            assert(v.take(i + 1).drop_last() =~= v.take(i as int));
            assert(v.take(i + 1).last() == self.sessions[i as int]@);
            if let Some(n) = parse_u64(self.sessions[i].id.as_str()) {
                if n < ID_MAX && n > largest {
                    largest = n;
                }
            }
            i += 1;
        }
        assert(v.take(i as int) =~= v);
        decimal(largest as u128 + 1)
    }
}

/// The index for a session of this name, where it has to change, and the session's id.
pub fn reconcile(index: &SessionIndex, name: &str, current: Option<&str>, now: u64) -> (r: (
    Option<SessionIndex>,
    String,
))
    ensures
        opt_view(r.0) == index@.reconcile(name@, opt_view(current), now).0,
        r.1@ == index@.reconcile(name@, opt_view(current), now).1,
{
    let mut next = index.clone();
    let ghost v = index@.sessions;
    match current {
        Some(id) => {
            match index.find_id(id) {
                Some(i) => {
                    assert(v[i as int] == index.sessions[i as int]@);
                    if same(index.sessions[i].name.as_str(), name) {
                        return (None, id.to_owned());
                    }
                    assert(views(next.sessions@)[i as int] == next.sessions[i as int]@);
                    next.sessions[i].name = name.to_owned();
                    assert(views(next.sessions@) =~= v.update(
                        i as int,
                        SessionEntryV { name: name@, ..v[i as int] },
                    ));
                },
                None => next.push_session(id.to_owned(), name.to_owned(), now),
            }
            (Some(next), id.to_owned())
        },
        None => {
            match index.find_name(name) {
                Some(i) => {
                    assert(v[i as int] == index.sessions[i as int]@);
                    assert(views(next.sessions@)[i as int] == next.sessions[i as int]@);
                    next.sessions[i].last_seen = now;
                    assert(views(next.sessions@) =~= v.update(
                        i as int,
                        SessionEntryV { last_seen: now, ..v[i as int] },
                    ));
                    let id = index.sessions[i].id.clone();
                    (Some(next), id)
                },
                None => {
                    let id = index.next_internal_id();
                    next.push_session(id.clone(), name.to_owned(), now);
                    (Some(next), id)
                },
            }
        },
    }
}

// --- laws ---

proof fn lemma_hex(n: nat, len: nat)
    ensures
        hex(n, len).len() == len,
    decreases len,
{
    if len > 0 {
        lemma_hex(n / 16, (len - 1) as nat);
    }
}

/// How many numbers have `len` hexadecimal digits.
spec fn hex_count(len: nat) -> nat
    decreases len,
{
    if len == 0 {
        1
    } else {
        16 * hex_count((len - 1) as nat)
    }
}

proof fn lemma_hex_tells(n: nat, m: nat, len: nat)
    requires
        n < hex_count(len),
        m < hex_count(len),
        hex(n, len) == hex(m, len),
    ensures
        n == m,
    decreases len,
{
    if len > 0 {
        let a = hex(n / 16, (len - 1) as nat);
        let b = hex(m / 16, (len - 1) as nat);
        assert(a.push(hex_digit(n % 16)).drop_last() =~= a);
        assert(b.push(hex_digit(m % 16)).drop_last() =~= b);
        assert(a.push(hex_digit(n % 16)).last() == hex_digit(n % 16));
        assert(b.push(hex_digit(m % 16)).last() == hex_digit(m % 16));
        lemma_hex_tells(n / 16, m / 16, (len - 1) as nat);
    }
}

/// Two files that are written before they replace others go by the same name only if they are
/// for the same instance, for sessions with the same hash, and for files that differ in no
/// more than slashes and underscores. So the instances of one session never share one.
pub proof fn law_tmp_names_differ(
    rel: Seq<char>,
    plugin_id: u32,
    session: Seq<char>,
    rel2: Seq<char>,
    plugin_id2: u32,
    session2: Seq<char>,
)
    ensures
        tmp_name(rel, plugin_id, session) == tmp_name(rel2, plugin_id2, session2) <==> plugin_id
            == plugin_id2 && fnv(encode_utf8(session)) == fnv(encode_utf8(session2)) && flattened(
            rel,
        ) == flattened(rel2),
        plugin_id != plugin_id2 ==> tmp_name(rel, plugin_id, session) != tmp_name(
            rel,
            plugin_id2,
            session,
        ),
{
    lemma_tmp_name(rel, plugin_id, session, rel2, plugin_id2, session2);
    lemma_tmp_name(rel, plugin_id, session, rel, plugin_id2, session);
}

proof fn lemma_tmp_name(
    rel: Seq<char>,
    plugin_id: u32,
    session: Seq<char>,
    rel2: Seq<char>,
    plugin_id2: u32,
    session2: Seq<char>,
)
    ensures
        tmp_name(rel, plugin_id, session) == tmp_name(rel2, plugin_id2, session2) ==> plugin_id
            == plugin_id2 && fnv(encode_utf8(session)) == fnv(encode_utf8(session2)) && flattened(
            rel,
        ) == flattened(rel2),
{
    if tmp_name(rel, plugin_id, session) == tmp_name(rel2, plugin_id2, session2) {
        let name = tmp_name(rel, plugin_id, session);
        let start = TMP_DIR@.len() as int + 1;
        let a = hex(fnv(encode_utf8(session)) as nat, 16);
        let b = hex(fnv(encode_utf8(session2)) as nat, 16);
        lemma_hex(fnv(encode_utf8(session)) as nat, 16);
        lemma_hex(fnv(encode_utf8(session2)) as nat, 16);
        assert(name.subrange(start, start + 16) =~= a);
        assert(name.subrange(start, start + 16) =~= b);
        reveal_with_fuel(hex_count, 17);
        lemma_hex_tells(fnv(encode_utf8(session)) as nat, fnv(encode_utf8(session2)) as nat, 16);
        let c = digits(plugin_id as nat);
        let d = digits(plugin_id2 as nat);
        let tail = name.skip(start + 17);
        assert(tail =~= c.push('-') + flattened(rel));
        assert(tail =~= d.push('-') + flattened(rel2));
        lemma_digits_without(plugin_id as nat, '-');
        lemma_digits_without(plugin_id2 as nat, '-');
        lemma_until_prefix(c, '-', flattened(rel));
        lemma_until_prefix(d, '-', flattened(rel2));
        assert(tail.take(c.len() as int) =~= c);
        assert(tail.take(d.len() as int) =~= d);
        lemma_number_of_digits(plugin_id as nat);
        lemma_number_of_digits(plugin_id2 as nat);
        assert(tail.skip(c.len() as int + 1) =~= flattened(rel));
        assert(tail.skip(d.len() as int + 1) =~= flattened(rel2));
    }
}

} // verus!
