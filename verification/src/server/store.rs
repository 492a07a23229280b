//! Durable room document storage: the rules that the stores apply to room ids,
//! sizes and expiry, and an in-memory store.

use vstd::prelude::*;
use vstd::string::{StringSliceAdditionalSpecFns, StrSliceExecFns, StringExecFns};
use vstd::utf8::encode_utf8;
use crate::text::opt_view;
use crate::table::Table;

verus! {

/// Longest room id accepted for a file name, in bytes.
pub const MAX_ROOM_ID_BYTES: usize = 128;

/// Characters kept in a file name: ASCII letters and digits, `-` and `_`.
pub open spec fn is_file_safe(c: char) -> bool {
    ('a' <= c <= 'z') || ('A' <= c <= 'Z') || ('0' <= c <= '9') || c == '-' || c == '_'
}

/// A room id with every other character replaced by `_`.
pub open spec fn sanitized(s: Seq<char>) -> Seq<char> {
    s.map_values(|c: char| if is_file_safe(c) { c } else { '_' })
}

/// The file-name form of a room id: `None` for an empty id or one longer than
/// 128 bytes, otherwise [`sanitized`].
pub open spec fn safe_room_id(s: &str) -> Option<Seq<char>> {
    if s@.len() == 0 || s.spec_bytes().len() > MAX_ROOM_ID_BYTES {
        None
    } else {
        Some(sanitized(s@))
    }
}

/// Law: a sanitized room id has as many characters as the id, and each one is
/// a file-safe character (so it holds no `/` and no `.`).
pub proof fn sanitized_is_file_safe(s: Seq<char>)
    ensures
        sanitized(s).len() == s.len(),
        forall|i: int| 0 <= i < s.len() ==> is_file_safe(#[trigger] sanitized(s)[i]),
{
}

/// Maps a room id to a name that is safe as a file name (see [`safe_room_id`]).
pub fn sanitize_room_id(room_id: &str) -> (r: Option<String>)
    ensures
        opt_view(r) == safe_room_id(room_id),
{
    if room_id.is_empty() || room_id.as_bytes().len() > MAX_ROOM_ID_BYTES {
        return None;
    }
    let n = room_id.unicode_len();
    let mut safe = String::new();
    let mut i: usize = 0;
    while i < n
        invariant
            i <= n == room_id@.len(),
            safe@ == sanitized(room_id@.take(i as int)),
        decreases n - i,
    {
        let c = room_id.get_char(i);
        if ('a' <= c && c <= 'z') || ('A' <= c && c <= 'Z') || ('0' <= c && c <= '9') || c == '-'
            || c == '_' {
            safe.push(c);
        } else {
            safe.push('_');
        }
        assert(sanitized(room_id@.take(i + 1)) =~= sanitized(room_id@.take(i as int)).push(
            if is_file_safe(c) { c } else { '_' },
        ));
        i = i + 1;
    }
    assert(room_id@.take(n as int) =~= room_id@);
    Some(safe)
}

/// What is known of a snapshot file's age.
#[derive(Debug, Clone, Copy, PartialEq, Eq, Structural)]
pub enum FileAge {
    /// The file's metadata could not be read.
    Missing,
    /// The file exists, but its modification time or the clock could not be read.
    Unknown,
    /// Modification time and current time, in seconds since the Unix epoch.
    Known { modified_secs: u64, now_secs: u64 },
}

/// Whether a snapshot file counts as expired: a missing file does, an unknown
/// age does not, and a known age does when more than `ttl_secs` seconds passed
/// (a modification time in the future counts as no time passed).
pub open spec fn is_expired(age: FileAge, ttl_secs: u64) -> bool {
    match age {
        FileAge::Missing => true,
        FileAge::Unknown => false,
        FileAge::Known { modified_secs, now_secs } => now_secs > modified_secs && now_secs
            - modified_secs > ttl_secs,
    }
}

/// Decides expiry as [`is_expired`] describes.
pub fn file_expired(age: FileAge, ttl_secs: u64) -> (r: bool)
    ensures
        r == is_expired(age, ttl_secs),
{
    match age {
        FileAge::Missing => true,
        FileAge::Unknown => false,
        FileAge::Known { modified_secs, now_secs } => now_secs.saturating_sub(modified_secs)
            > ttl_secs,
    }
}

/// The name of the file that holds a room's snapshot: the sanitized id with
/// `.snapshot` appended.
pub open spec fn snapshot_file_name(s: &str) -> Option<Seq<char>> {
    match safe_room_id(s) {
        Some(safe) => Some(safe + ".snapshot"@),
        None => None,
    }
}

/// The path that `Path::join` makes of a directory and a name.
pub uninterp spec fn path_joined(dir: std::path::PathBuf, name: Seq<char>) -> std::path::PathBuf;

/// Law: room ids with the same sanitized form share one snapshot file.
pub proof fn same_sanitized_same_file(a: &str, b: &str)
    requires
        safe_room_id(a) == safe_room_id(b),
    ensures
        snapshot_file_name(a) == snapshot_file_name(b),
{
}

/// Law: a snapshot file name is one plain name: it starts with a file-safe
/// character (so it is neither `.` nor `..` nor hidden), and holds only
/// file-safe characters and the `.` of `.snapshot`; in particular no `/` and no `\`.
pub proof fn snapshot_file_name_is_plain(s: &str)
    ensures
        snapshot_file_name(s) matches Some(name) ==> {
            &&& name.len() > 0
            &&& is_file_safe(name[0])
            &&& forall|i: int| 0 <= i < name.len() ==> (is_file_safe(#[trigger] name[i]) || name[i]
                == '.')
        },
{
    reveal_strlit(".snapshot");
    if let Some(name) = snapshot_file_name(s) {
        let safe = sanitized(s@);
        assert(name == safe + ".snapshot"@);
        assert(is_file_safe(safe[0]));
        assert forall|i: int| 0 <= i < name.len() implies (is_file_safe(#[trigger] name[i])
            || name[i] == '.') by {
            if i < safe.len() {
                assert(name[i] == safe[i]);
            } else {
                assert(name[i] == ".snapshot"@[i - safe.len()]);
            }
        }
    }
}

/// `Path::join`: the named join of the directory and the name.
#[verifier::external_body]
fn path_join(dir: &std::path::PathBuf, name: &str) -> (p: std::path::PathBuf)
    ensures
        p == path_joined(*dir, name@),
{
    dir.join(name)
}

/// Room snapshots kept as files in one directory.
pub struct FileRoomStore {
    dir: std::path::PathBuf,
    room_ttl_secs: Option<u64>,
    max_room_bytes: usize,
}

impl FileRoomStore {
    /// The expiry time of a snapshot, if any.
    pub closed spec fn spec_room_ttl_secs(&self) -> Option<u64> {
        self.room_ttl_secs
    }

    /// The directory that holds the snapshots.
    pub closed spec fn spec_dir(&self) -> std::path::PathBuf {
        self.dir
    }

    /// The largest snapshot kept, in bytes.
    pub closed spec fn spec_max_room_bytes(&self) -> usize {
        self.max_room_bytes
    }

    /// A store in `dir` with the given expiry and size limit.
    pub fn new(dir: std::path::PathBuf, room_ttl_secs: Option<u64>, max_room_bytes: usize) -> (s:
        Self)
        ensures
            s.spec_dir() == dir,
            s.spec_room_ttl_secs() == room_ttl_secs,
            s.spec_max_room_bytes() == max_room_bytes,
    {
        FileRoomStore { dir, room_ttl_secs, max_room_bytes }
    }

    /// The directory that holds the snapshots.
    pub fn dir(&self) -> (d: &std::path::PathBuf)
        ensures
            *d == self.spec_dir(),
    {
        &self.dir
    }

    /// The expiry time of a snapshot, if any.
    pub fn room_ttl_secs(&self) -> (t: Option<u64>)
        ensures
            t == self.spec_room_ttl_secs(),
    {
        self.room_ttl_secs
    }

    /// The name of the file for a room (see [`snapshot_file_name`]).
    pub fn room_file_name(&self, room_id: &str) -> (r: Option<String>)
        ensures
            opt_view(r) == snapshot_file_name(room_id),
    {
        match sanitize_room_id(room_id) {
            Some(safe) => {
                let mut name = safe;
                name.append(".snapshot");
                Some(name)
            },
            None => None,
        }
    }

    /// The path of the file for a room: the store's directory joined with
    /// [`Self::room_file_name`]; `None` exactly when the room id is refused.
    pub fn room_path(&self, room_id: &str) -> (r: Option<std::path::PathBuf>)
        ensures
            r is Some <==> snapshot_file_name(room_id) is Some,
            r matches Some(p) ==> p == path_joined(self.spec_dir(), snapshot_file_name(room_id).unwrap()),
    {
        match self.room_file_name(room_id) {
            Some(name) => Some(path_join(&self.dir, name.as_str())),
            None => None,
        }
    }

    /// Whether a snapshot of this size may be saved: at most the size limit.
    pub fn accepts_snapshot(&self, data: &str) -> (ok: bool)
        ensures
            ok == (data.spec_bytes().len() <= self.spec_max_room_bytes()),
    {
        data.as_bytes().len() <= self.max_room_bytes
    }

    /// Where a snapshot is to be saved: nowhere when it is over the size limit
    /// (checked before anything else) or the room id is refused, otherwise the
    /// room's file, [`Self::room_path`].
    pub fn save_target(&self, room_id: &str, data: &str) -> (r: Option<std::path::PathBuf>)
        ensures
            r is Some <==> (data.spec_bytes().len() <= self.spec_max_room_bytes()
                && snapshot_file_name(room_id) is Some),
            r matches Some(p) ==> p == path_joined(
                self.spec_dir(),
                snapshot_file_name(room_id).unwrap(),
            ),
    {
        if !self.accepts_snapshot(data) {
            return None;
        }
        self.room_path(room_id)
    }

    /// Whether a stored snapshot of this age is to be removed rather than
    /// read: only when the store has an expiry time and the file is past it.
    pub fn snapshot_expired(&self, age: FileAge) -> (r: bool)
        ensures
            r == match self.spec_room_ttl_secs() {
                Some(ttl) => is_expired(age, ttl),
                None => false,
            },
    {
        match self.room_ttl_secs {
            Some(ttl) => file_expired(age, ttl),
            None => false,
        }
    }

    /// A snapshot read from disk, kept only when it is within the size limit.
    pub fn accept_loaded(&self, data: String) -> (r: Option<String>)
        ensures
            r == (if encode_utf8(data@).len() <= self.spec_max_room_bytes() {
                Some(data)
            } else {
                None
            }),
    {
        if data.as_str().as_bytes().len() > self.max_room_bytes {
            None
        } else {
            Some(data)
        }
    }

    /// What loading a room's snapshot gives, from what was found on disk:
    /// nothing when the room id is refused or no file is there; nothing when
    /// the store has an expiry time and the file is past it (the file is then
    /// removed); nothing when it could not be read or is over the size limit;
    /// otherwise its contents.
    pub open spec fn load_outcome(
        &self,
        room_id: &str,
        present: bool,
        age: FileAge,
        contents: Option<String>,
    ) -> Option<String> {
        if snapshot_file_name(room_id) is None || !present {
            None
        } else if self.spec_room_ttl_secs() matches Some(ttl) && is_expired(age, ttl) {
            None
        } else {
            match contents {
                Some(c) => if encode_utf8(c@).len() <= self.spec_max_room_bytes() {
                    Some(c)
                } else {
                    None
                },
                None => None,
            }
        }
    }

    /// Decides a load as [`Self::load_outcome`] says: `present` is whether the
    /// room's file exists, `age` its age, and `contents` what reading it gave
    /// (`None` when it was not read or could not be).
    pub fn load_result(&self, room_id: &str, present: bool, age: FileAge, contents: Option<String>) -> (r:
        Option<String>)
        ensures
            r == self.load_outcome(room_id, present, age, contents),
    {
        if self.room_path(room_id).is_none() || !present {
            return None;
        }
        if self.snapshot_expired(age) {
            return None;
        }
        match contents {
            Some(c) => self.accept_loaded(c),
            None => None,
        }
    }

    /// Law: a snapshot that a save accepted is read back, under the same room
    /// id or any other with the same sanitized form, as long as the file is
    /// there with what was written and has not expired: the save and the load
    /// use the same file, and the load keeps the contents.
    pub proof fn read_after_write(&self, saved: &str, loaded: &str, data: String, age: FileAge)
        requires
            encode_utf8(data@).len() <= self.spec_max_room_bytes(),
            snapshot_file_name(saved) is Some,
            safe_room_id(loaded) == safe_room_id(saved),
            !(self.spec_room_ttl_secs() matches Some(ttl) && is_expired(age, ttl)),
        ensures
            snapshot_file_name(loaded) == snapshot_file_name(saved),
            path_joined(self.spec_dir(), snapshot_file_name(loaded).unwrap()) == path_joined(
                self.spec_dir(),
                snapshot_file_name(saved).unwrap(),
            ),
            self.load_outcome(loaded, true, age, Some(data)) == Some(data),
    {
        same_sanitized_same_file(saved, loaded);
    }
}


/// Room snapshots kept in memory, keyed by room id.
pub struct MemoryRoomStore {
    rooms: Table<String>,
}

impl MemoryRoomStore {
    /// The stored snapshot of each room.
    pub closed spec fn rooms(&self) -> Map<Seq<char>, Seq<char>> {
        self.rooms.entries().map_values(|s: String| s@)
    }

    /// An empty store.
    pub fn new() -> (s: Self)
        ensures
            s.rooms() == Map::<Seq<char>, Seq<char>>::empty(),
    {
        let s = MemoryRoomStore { rooms: Table::new() };
        assert(s.rooms() =~= Map::<Seq<char>, Seq<char>>::empty());
        s
    }

    /// The snapshot stored for a room, if any.
    pub fn load_snapshot(&self, room_id: &str) -> (r: Option<String>)
        ensures
            opt_view(r) == (if self.rooms().contains_key(room_id@) {
                Some(self.rooms()[room_id@])
            } else {
                None
            }),
    {
        match self.rooms.get(room_id) {
            Some(s) => Some(s.clone()),
            None => None,
        }
    }

    /// Stores a room's snapshot, replacing any earlier one; always succeeds.
    pub fn save_snapshot(&mut self, room_id: &str, data_b64: &str) -> (ok: bool)
        ensures
            ok,
            final(self).rooms() == old(self).rooms().insert(room_id@, data_b64@),
    {
        let data = data_b64.to_owned();
        self.rooms.insert(room_id, data);
        assert(self.rooms() =~= old(self).rooms().insert(room_id@, data_b64@));
        true
    }
}

/// Law: a memory store gives back what was last saved for a room, and saving
/// one room leaves every other room as it was.
pub proof fn memory_store_read_after_write(
    before: MemoryRoomStore,
    after: MemoryRoomStore,
    room: Seq<char>,
    data: Seq<char>,
    other: Seq<char>,
)
    requires
        after.rooms() == before.rooms().insert(room, data),
    ensures
        after.rooms().contains_key(room) && after.rooms()[room] == data,
        other != room ==> (after.rooms().contains_key(other) == before.rooms().contains_key(other)
            && (before.rooms().contains_key(other) ==> after.rooms()[other]
            == before.rooms()[other])),
{
}


/// The connection manager of the `redis` crate (opaque here).
#[verifier::external_type_specification]
#[verifier::external_body]
pub struct ExConnectionManager(redis::aio::ConnectionManager);

/// `ConnectionManager::clone` of the `redis` crate: the type derives `Clone`
/// over a single shared `Arc`, so the copy is the same handle on the same
/// managed connection.
#[verifier::external_body]
fn clone_connection(c: &redis::aio::ConnectionManager) -> (r: redis::aio::ConnectionManager)
    ensures
        r == *c,
{
    c.clone()
}

/// The Redis key of a room's snapshot: `drafftink:room:<id>:snapshot`.
pub open spec fn snapshot_key_of(room_id: Seq<char>) -> Seq<char> {
    "drafftink:room:"@ + room_id + ":snapshot"@
}

/// The Redis channel of a room's events: `drafftink:room:<id>:events`.
pub open spec fn events_channel_of(room_id: Seq<char>) -> Seq<char> {
    "drafftink:room:"@ + room_id + ":events"@
}

/// Room snapshots kept in Redis, with room events published on Redis channels.
pub struct RedisRoomStore {
    client: redis::aio::ConnectionManager,
    redis_url: String,
    max_room_bytes: usize,
}

impl RedisRoomStore {
    /// The URL of the Redis server.
    pub closed spec fn spec_redis_url(&self) -> Seq<char> {
        self.redis_url@
    }

    /// The managed connection the store was made with.
    pub closed spec fn spec_client(&self) -> redis::aio::ConnectionManager {
        self.client
    }

    /// The largest snapshot kept, in bytes.
    pub closed spec fn spec_max_room_bytes(&self) -> usize {
        self.max_room_bytes
    }

    /// A store over an established connection to the server at `redis_url`.
    pub fn new(client: redis::aio::ConnectionManager, redis_url: &str, max_room_bytes: usize) -> (s:
        Self)
        ensures
            s.spec_client() == client,
            s.spec_redis_url() == redis_url@,
            s.spec_max_room_bytes() == max_room_bytes,
    {
        RedisRoomStore { client, redis_url: redis_url.to_owned(), max_room_bytes }
    }

    /// The URL of the Redis server.
    pub fn redis_url(&self) -> (u: &str)
        ensures
            u@ == self.spec_redis_url(),
    {
        self.redis_url.as_str()
    }

    /// The key under which a room's snapshot is stored.
    pub fn snapshot_key(room_id: &str) -> (k: String)
        ensures
            k@ == snapshot_key_of(room_id@),
    {
        let mut k = "drafftink:room:".to_owned();
        k.append(room_id);
        k.append(":snapshot");
        k
    }

    /// The channel on which a room's events are published.
    pub fn events_channel(room_id: &str) -> (c: String)
        ensures
            c@ == events_channel_of(room_id@),
    {
        let mut c = "drafftink:room:".to_owned();
        c.append(room_id);
        c.append(":events");
        c
    }

    /// Another handle on the managed connection the store was made with.
    pub fn connection(&self) -> (c: redis::aio::ConnectionManager)
        ensures
            c == self.spec_client(),
    {
        clone_connection(&self.client)
    }

    /// Whether a snapshot of this size may be saved: at most the size limit.
    pub fn accepts_snapshot(&self, data: &str) -> (ok: bool)
        ensures
            ok == (data.spec_bytes().len() <= self.spec_max_room_bytes()),
    {
        data.as_bytes().len() <= self.max_room_bytes
    }
}

} // verus!
