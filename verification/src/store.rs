//! In-memory chunk store: cache key to append-only chunk buffer.
//!
//! Each buffer carries the timestamp at which it was created and a max-age
//! computed once, at creation, from its header's cache-control string. Key
//! creation is first-writer-wins: a second creation under an existing key
//! observes the entry that is already there. A sweep removes every buffer
//! whose lifetime has elapsed.
//!
//! The store is a sequential structure; callers that share it across tasks
//! wrap it in their own locking. Its contract is a finite map from key to
//! buffer snapshot, on which independent writes to distinct keys provably
//! commute.

use vstd::prelude::*;

use crate::cache::get_cache_key;
use crate::cache::get_max_age_from_controller;
use crate::cache::spec_cache_key;
use crate::cache::spec_max_age;
use crate::codec::FileHeader;
use crate::text::str_eq;

verus! {

/// Default period between two housekeeping sweeps of a store, in
/// milliseconds.
pub const CACHE_CLEAN_UP_PERIOD_MS: u32 = 10000;

/// Mathematical content of one chunk buffer: its bytes, the creation
/// timestamp, and the max-age both in milliseconds.
#[verifier::ext_equal]
pub struct ChunkSnapshot {
    pub data: Seq<u8>,
    pub received_at_ms: u64,
    pub max_age: u64,
}

/// One chunk buffer: an append-only byte sequence plus the TTL data fixed
/// when the buffer was created.
pub struct MemFile {
    headers: FileHeader,
    received_at_ms: u64,
    buffer: Vec<u8>,
    max_age: u64,
}

impl View for MemFile {
    type V = ChunkSnapshot;

    closed spec fn view(&self) -> ChunkSnapshot {
        ChunkSnapshot {
            data: self.buffer@,
            received_at_ms: self.received_at_ms,
            max_age: self.max_age,
        }
    }
}

/// Snapshot of a freshly created, still empty buffer: no bytes, the given
/// creation time, and the max-age drawn from the header's cache-control
/// string with an unbounded default.
pub open spec fn spec_new_snapshot(headers: FileHeader, received_at_ms: u64) -> ChunkSnapshot {
    ChunkSnapshot {
        data: Seq::<u8>::empty(),
        received_at_ms,
        max_age: spec_max_age(headers.cache_control@, u64::MAX),
    }
}

impl MemFile {
    /// Create an empty buffer for a decoded header; its max-age comes from
    /// the header's cache-control string, defaulting to no expiry.
    pub fn new(headers: FileHeader, received_at_ms: u64) -> (f: MemFile)
        ensures
            f@ == spec_new_snapshot(headers, received_at_ms),
            f.spec_headers() == headers,
    {
        let max_age = get_max_age_from_controller(headers.cache_control.as_str(), u64::MAX);
        let f = MemFile { headers, received_at_ms, buffer: Vec::new(), max_age };
        proof {
            assert(f@ =~= spec_new_snapshot(f.headers, received_at_ms));
        }
        f
    }

    /// The header the buffer was created from.
    pub closed spec fn spec_headers(&self) -> FileHeader {
        self.headers
    }

    /// Append the given bytes to the buffer; nothing else changes, and the
    /// count of appended bytes is returned.
    pub fn write(&mut self, p: &[u8]) -> (n: usize)
        ensures
            final(self)@.data == old(self)@.data + p@,
            final(self)@.received_at_ms == old(self)@.received_at_ms,
            final(self)@.max_age == old(self)@.max_age,
            final(self).spec_headers() == old(self).spec_headers(),
            n == p@.len(),
    {
        let len = p.len();
        let mut k: usize = 0;
        while k < len
            invariant
                k <= len,
                len == p@.len(),
                self.buffer@ == old(self).buffer@ + p@.subrange(0, k as int),
                self.received_at_ms == old(self).received_at_ms,
                self.max_age == old(self).max_age,
                self.headers == old(self).headers,
            decreases len - k,
        {
            let b = p[k];
            self.buffer.push(b);
            proof {
                assert(old(self).buffer@ + p@.subrange(0, k as int) + seq![p@[k as int]] =~= old(
                    self,
                ).buffer@ + p@.subrange(0, k + 1));
            }
            k = k + 1;
        }
        proof {
            assert(p@.subrange(0, p@.len() as int) =~= p@);
        }
        len
    }

    /// Read access to the appended bytes.
    pub fn bytes(&self) -> (b: &Vec<u8>)
        ensures
            b@ == self@.data,
    {
        &self.buffer
    }

    /// Creation time of the buffer, in milliseconds.
    pub fn received_at_ms(&self) -> (t: u64)
        ensures
            t == self@.received_at_ms,
    {
        self.received_at_ms
    }

    /// Lifetime of the buffer, in milliseconds.
    pub fn max_age(&self) -> (a: u64)
        ensures
            a == self@.max_age,
    {
        self.max_age
    }
}

/// A keyed slot of the store.
struct StoreEntry {
    key: String,
    file: MemFile,
}

/// Keys of `s` are pairwise distinct.
spec fn entries_wf(s: Seq<StoreEntry>) -> bool {
    forall|i: int, j: int| 0 <= i < j < s.len() ==> s[i].key@ != s[j].key@
}

/// Some slot of `s` carries key `k`.
spec fn entries_have_key(s: Seq<StoreEntry>, k: Seq<char>) -> bool {
    exists|i: int| 0 <= i < s.len() && s[i].key@ == k
}

/// The finite map described by a sequence of keyed slots.
spec fn entries_view(s: Seq<StoreEntry>) -> Map<Seq<char>, ChunkSnapshot> {
    Map::new(
        |k: Seq<char>| entries_have_key(s, k),
        |k: Seq<char>|
            s[choose|i: int| 0 <= i < s.len() && s[i].key@ == k].file@,
    )
}

/// With distinct keys, slot `i` decides both membership and value of its key.
proof fn lemma_entries_view_index(s: Seq<StoreEntry>, i: int)
    requires
        entries_wf(s),
        0 <= i < s.len(),
    ensures
        entries_view(s).contains_key(s[i].key@),
        entries_view(s)[s[i].key@] == s[i].file@,
{
    let k = s[i].key@;
    assert(entries_have_key(s, k));
    let j = choose|j: int| 0 <= j < s.len() && s[j].key@ == k;
    if j < i {
        assert(s[j].key@ != s[i].key@);
    } else if i < j {
        assert(s[i].key@ != s[j].key@);
    }
}

/// Appending a slot with a fresh key inserts exactly that binding.
proof fn lemma_entries_view_push(s: Seq<StoreEntry>, e: StoreEntry)
    requires
        entries_wf(s),
        !entries_have_key(s, e.key@),
    ensures
        entries_wf(s.push(e)),
        entries_view(s.push(e)) == entries_view(s).insert(e.key@, e.file@),
{
    let t = s.push(e);
    assert forall|i: int, j: int| 0 <= i < j < t.len() implies t[i].key@ != t[j].key@ by {
        if j < s.len() {
        } else {
            assert(t[j] == e);
            assert(0 <= i < s.len() && s[i].key@ == e.key@ ==> entries_have_key(s, e.key@));
        }
    }
    assert forall|k: Seq<char>|
        entries_view(t).contains_key(k) == entries_view(s).insert(
            e.key@,
            e.file@,
        ).contains_key(k) by {
        if k == e.key@ {
            assert(t[s.len() as int].key@ == k);
            assert(entries_have_key(t, k));
        } else {
            if entries_have_key(t, k) {
                let i = choose|i: int| 0 <= i < t.len() && t[i].key@ == k;
                assert(i < s.len());
                assert(entries_have_key(s, k));
            }
            if entries_have_key(s, k) {
                let i = choose|i: int| 0 <= i < s.len() && s[i].key@ == k;
                assert(t[i].key@ == k);
            }
        }
    }
    assert forall|k: Seq<char>| entries_view(t).contains_key(k) implies entries_view(t)[k]
        == entries_view(s).insert(e.key@, e.file@)[k] by {
        let i = choose|i: int| 0 <= i < t.len() && t[i].key@ == k;
        lemma_entries_view_index(t, i);
        if k == e.key@ {
            if i < s.len() {
                assert(entries_have_key(s, k));
            }
            assert(i == s.len());
            assert(entries_view(t)[k] == e.file@);
        } else {
            assert(i < s.len());
            lemma_entries_view_index(s, i);
        }
    }
    assert(entries_view(t) =~= entries_view(s).insert(e.key@, e.file@));
}

/// Replacing slot `i` by a slot with the same key re-binds exactly that key.
proof fn lemma_entries_view_update(s: Seq<StoreEntry>, i: int, e: StoreEntry)
    requires
        entries_wf(s),
        0 <= i < s.len(),
        e.key@ == s[i].key@,
    ensures
        entries_wf(s.update(i, e)),
        entries_view(s.update(i, e)) == entries_view(s).insert(e.key@, e.file@),
{
    let t = s.update(i, e);
    assert(entries_wf(t));
    assert forall|k: Seq<char>|
        entries_view(t).contains_key(k) == entries_view(s).insert(
            e.key@,
            e.file@,
        ).contains_key(k) by {
        if entries_have_key(t, k) {
            let j = choose|j: int| 0 <= j < t.len() && t[j].key@ == k;
            assert(s[j].key@ == k);
        }
        if entries_have_key(s, k) {
            let j = choose|j: int| 0 <= j < s.len() && s[j].key@ == k;
            assert(t[j].key@ == k);
        }
    }
    assert forall|k: Seq<char>| entries_view(t).contains_key(k) implies entries_view(t)[k]
        == entries_view(s).insert(e.key@, e.file@)[k] by {
        let j = choose|j: int| 0 <= j < t.len() && t[j].key@ == k;
        lemma_entries_view_index(t, j);
        if k == e.key@ {
            if j != i {
                assert(t[j].key@ == t[i].key@);
                assert(entries_wf(t));
                assert(false);
            }
            assert(entries_view(t)[k] == e.file@);
        } else {
            assert(j != i);
            lemma_entries_view_index(s, j);
        }
    }
    assert(entries_view(t) =~= entries_view(s).insert(e.key@, e.file@));
}

/// Removing slot `i` removes exactly its key's binding.
proof fn lemma_entries_view_remove(s: Seq<StoreEntry>, i: int)
    requires
        entries_wf(s),
        0 <= i < s.len(),
    ensures
        entries_wf(s.remove(i)),
        entries_view(s.remove(i)) == entries_view(s).remove(s[i].key@),
{
    let t = s.remove(i);
    assert forall|a: int, b: int| 0 <= a < b < t.len() implies t[a].key@ != t[b].key@ by {
        let a0 = if a < i { a } else { a + 1 };
        let b0 = if b < i { b } else { b + 1 };
        assert(t[a] == s[a0]);
        assert(t[b] == s[b0]);
    }
    assert forall|k: Seq<char>|
        entries_view(t).contains_key(k) == entries_view(s).remove(s[i].key@).contains_key(k) by {
        if entries_have_key(t, k) {
            let j = choose|j: int| 0 <= j < t.len() && t[j].key@ == k;
            let j0 = if j < i { j } else { j + 1 };
            assert(t[j] == s[j0]);
            assert(s[j0].key@ == k);
            if k == s[i].key@ {
                if j0 < i {
                    assert(s[j0].key@ != s[i].key@);
                } else {
                    assert(s[i].key@ != s[j0].key@);
                }
            }
        }
        if entries_have_key(s, k) && k != s[i].key@ {
            let j = choose|j: int| 0 <= j < s.len() && s[j].key@ == k;
            assert(j != i);
            let j1 = if j < i { j } else { j - 1 };
            assert(t[j1] == s[j]);
            assert(t[j1].key@ == k);
        }
    }
    assert forall|k: Seq<char>| entries_view(t).contains_key(k) implies entries_view(t)[k]
        == entries_view(s).remove(s[i].key@)[k] by {
        let j = choose|j: int| 0 <= j < t.len() && t[j].key@ == k;
        lemma_entries_view_index(t, j);
        let j0 = if j < i { j } else { j + 1 };
        assert(t[j] == s[j0]);
        lemma_entries_view_index(s, j0);
    }
    assert(entries_view(t) =~= entries_view(s).remove(s[i].key@));
}

/// First-writer-wins creation: bind `k` to `snap` only where `k` is unbound.
pub open spec fn spec_create(
    m: Map<Seq<char>, ChunkSnapshot>,
    k: Seq<char>,
    snap: ChunkSnapshot,
) -> Map<Seq<char>, ChunkSnapshot> {
    if m.contains_key(k) {
        m
    } else {
        m.insert(k, snap)
    }
}

/// Append `p` to the buffer under `k`, where one exists; an unbound key
/// leaves the map as it is.
pub open spec fn spec_append(
    m: Map<Seq<char>, ChunkSnapshot>,
    k: Seq<char>,
    p: Seq<u8>,
) -> Map<Seq<char>, ChunkSnapshot> {
    if m.contains_key(k) {
        m.insert(
            k,
            ChunkSnapshot {
                data: m[k].data + p,
                received_at_ms: m[k].received_at_ms,
                max_age: m[k].max_age,
            },
        )
    } else {
        m
    }
}

/// The buffer's lifetime has elapsed at `now`.
pub open spec fn spec_expired(snap: ChunkSnapshot, now_ms: u64) -> bool {
    snap.received_at_ms + snap.max_age < now_ms
}

/// The map after a sweep at `now`: every live binding, and nothing else.
pub open spec fn spec_sweep(m: Map<Seq<char>, ChunkSnapshot>, now_ms: u64) -> Map<
    Seq<char>,
    ChunkSnapshot,
> {
    Map::new(|k: Seq<char>| m.contains_key(k) && !spec_expired(m[k], now_ms), |k: Seq<char>| m[k])
}

/// The chunk store: a map from cache key to chunk buffer, with a
/// housekeeping period that tells its owner how often to sweep.
pub struct MemFiles {
    entries: Vec<StoreEntry>,
    house_keeping_period_ms: u32,
}

impl View for MemFiles {
    type V = Map<Seq<char>, ChunkSnapshot>;

    closed spec fn view(&self) -> Map<Seq<char>, ChunkSnapshot> {
        entries_view(self.entries@)
    }
}

impl MemFiles {
    /// Keys of the store are pairwise distinct.
    pub closed spec fn wf(&self) -> bool {
        entries_wf(self.entries@)
    }

    /// The configured housekeeping period, in milliseconds.
    pub closed spec fn spec_house_keeping_period_ms(&self) -> u32 {
        self.house_keeping_period_ms
    }

    /// An empty store with the given housekeeping period.
    pub fn new(house_keeping_period_ms: u32) -> (fs: MemFiles)
        ensures
            fs.wf(),
            fs@ == Map::<Seq<char>, ChunkSnapshot>::empty(),
            fs.spec_house_keeping_period_ms() == house_keeping_period_ms,
    {
        let fs = MemFiles { entries: Vec::new(), house_keeping_period_ms };
        proof {
            assert(fs@ =~= Map::<Seq<char>, ChunkSnapshot>::empty());
        }
        fs
    }

    /// How often the owner of the store should run [`MemFiles::sweep`].
    pub fn house_keeping_period_ms(&self) -> (p: u32)
        ensures
            p == self.spec_house_keeping_period_ms(),
    {
        self.house_keeping_period_ms
    }

    /// Index of the slot keyed `key`, where one exists.
    fn find(&self, key: &str) -> (r: Option<usize>)
        ensures
            match r {
                Some(i) => i < self.entries@.len() && self.entries@[i as int].key@ == key@,
                None => !entries_have_key(self.entries@, key@),
            },
    {
        let n = self.entries.len();
        let mut i: usize = 0;
        while i < n
            invariant
                n == self.entries@.len(),
                0 <= i <= n,
                forall|j: int| 0 <= j < i ==> self.entries@[j].key@ != key@,
            decreases n - i,
        {
            if str_eq(self.entries[i].key.as_str(), key) {
                return Some(i);
            }
            i = i + 1;
        }
        None
    }

    /// Whether the store currently holds a buffer under `key`.
    pub fn contains_key(&self, key: &str) -> (b: bool)
        ensures
            b == self@.contains_key(key@),
    {
        self.find(key).is_some()
    }

    /// Read access to the buffer under `key`, where one exists.
    pub fn get(&self, key: &str) -> (r: Option<&MemFile>)
        requires
            self.wf(),
        ensures
            match r {
                Some(f) => self@.contains_key(key@) && f@ == self@[key@],
                None => !self@.contains_key(key@),
            },
    {
        match self.find(key) {
            Some(i) => {
                proof {
                    lemma_entries_view_index(self.entries@, i as int);
                }
                Some(&self.entries[i].file)
            },
            None => None,
        }
    }

    /// Create the entry for `key` where none exists; a second creation under
    /// an existing key changes nothing and reports that the key was taken.
    /// Returns whether a new entry was created.
    pub fn create_or_get(&mut self, key: &str, headers: FileHeader, received_at_ms: u64) -> (created:
        bool)
        requires
            old(self).wf(),
        ensures
            final(self).wf(),
            final(self)@ == spec_create(
                old(self)@,
                key@,
                spec_new_snapshot(headers, received_at_ms),
            ),
            created == !old(self)@.contains_key(key@),
            final(self).spec_house_keeping_period_ms() == old(
                self,
            ).spec_house_keeping_period_ms(),
    {
        match self.find(key) {
            Some(i) => {
                proof {
                    lemma_entries_view_index(self.entries@, i as int);
                }
                false
            },
            None => {
                let file = MemFile::new(headers, received_at_ms);
                let entry = StoreEntry { key: key.to_owned(), file };
                proof {
                    lemma_entries_view_push(self.entries@, entry);
                }
                self.entries.push(entry);
                true
            },
        }
    }

    /// Append `p` to the buffer under `key`. An unbound key is reported as
    /// an error and leaves the store unchanged; a bound key's buffer grows
    /// by exactly `p`, and the count of appended bytes is returned.
    pub fn append(&mut self, key: &str, p: &[u8]) -> (r: Result<usize, StoreError>)
        requires
            old(self).wf(),
        ensures
            final(self).wf(),
            final(self)@ == spec_append(old(self)@, key@, p@),
            match r {
                Ok(n) => old(self)@.contains_key(key@) && n == p@.len(),
                Err(e) => !old(self)@.contains_key(key@) && e == StoreError::UnknownKey,
            },
            final(self).spec_house_keeping_period_ms() == old(
                self,
            ).spec_house_keeping_period_ms(),
    {
        match self.find(key) {
            None => Err(StoreError::UnknownKey),
            Some(i) => {
                proof {
                    lemma_entries_view_index(self.entries@, i as int);
                }
                let ghost s0 = self.entries@;
                let entry = &mut self.entries[i];
                let n = entry.file.write(p);
                proof {
                    lemma_entries_view_update(s0, i as int, self.entries@[i as int]);
                    assert(self.entries@ =~= s0.update(i as int, self.entries@[i as int]));
                    assert(entries_view(self.entries@)[key@] =~= spec_append(
                        entries_view(s0),
                        key@,
                        p@,
                    )[key@]);
                    assert(entries_view(self.entries@) =~= spec_append(
                        entries_view(s0),
                        key@,
                        p@,
                    ));
                }
                Ok(n)
            },
        }
    }

    /// Derive the cache key for a chunk and create its buffer where none
    /// exists yet (first-writer-wins); the derived key is returned so the
    /// caller can append the chunk's payload under it.
    pub fn add_new_empty_file(
        &mut self,
        asset_id: &str,
        media_type: &str,
        is_init: bool,
        headers: FileHeader,
        received_at_ms: u64,
    ) -> (key: String)
        requires
            old(self).wf(),
        ensures
            final(self).wf(),
            key@ == spec_cache_key(asset_id@, media_type@, is_init),
            final(self)@ == spec_create(
                old(self)@,
                key@,
                spec_new_snapshot(headers, received_at_ms),
            ),
            final(self).spec_house_keeping_period_ms() == old(
                self,
            ).spec_house_keeping_period_ms(),
    {
        let key = get_cache_key(asset_id, media_type, is_init);
        self.create_or_get(key.as_str(), headers, received_at_ms);
        key
    }

    /// Remove every buffer whose lifetime has elapsed at `now_ms`; live
    /// buffers are untouched.
    pub fn sweep(&mut self, now_ms: u64)
        requires
            old(self).wf(),
        ensures
            final(self).wf(),
            final(self)@ == spec_sweep(old(self)@, now_ms),
            final(self).spec_house_keeping_period_ms() == old(
                self,
            ).spec_house_keeping_period_ms(),
    {
        let mut i: usize = 0;
        while i < self.entries.len()
            invariant
                self.wf(),
                0 <= i <= self.entries@.len(),
                self.house_keeping_period_ms == old(self).house_keeping_period_ms,
                forall|k: Seq<char>| #[trigger]
                    self@.contains_key(k) ==> old(self)@.contains_key(k) && self@[k] == old(
                        self,
                    )@[k],
                forall|k: Seq<char>| #[trigger]
                    old(self)@.contains_key(k) ==> self@.contains_key(k) || spec_expired(
                        old(self)@[k],
                        now_ms,
                    ),
                forall|j: int|
                    0 <= j < i ==> !spec_expired(#[trigger] self.entries@[j].file@, now_ms),
            decreases self.entries@.len() - i,
        {
            let expired = match self.entries[i].file.received_at_ms.checked_add(
                self.entries[i].file.max_age,
            ) {
                Some(sum) => sum < now_ms,
                None => false,
            };
            proof {
                lemma_entries_view_index(self.entries@, i as int);
            }
            if expired {
                let ghost prev = self@;
                let ghost rk = self.entries@[i as int].key@;
                proof {
                    lemma_entries_view_remove(self.entries@, i as int);
                }
                self.entries.remove(i);
                proof {
                    assert(self@ == prev.remove(rk));
                    assert forall|k: Seq<char>| #[trigger]
                        self@.contains_key(k) implies old(self)@.contains_key(k) && self@[k]
                        == old(self)@[k] by {
                        assert(prev.contains_key(k));
                        assert(self@[k] == prev[k]);
                    }
                    assert forall|k: Seq<char>| #[trigger]
                        old(self)@.contains_key(k) implies self@.contains_key(k) || spec_expired(
                        old(self)@[k],
                        now_ms,
                    ) by {
                        if k == rk {
                            assert(spec_expired(prev[rk], now_ms));
                            assert(prev[rk] == old(self)@[rk]);
                        } else {
                            if prev.contains_key(k) {
                                assert(self@.contains_key(k));
                            }
                        }
                    }
                }
            } else {
                i = i + 1;
            }
        }
        proof {
            assert forall|k: Seq<char>|
                self@.contains_key(k) == spec_sweep(old(self)@, now_ms).contains_key(k) by {
                if self@.contains_key(k) {
                    let j = choose|j: int|
                        0 <= j < self.entries@.len() && self.entries@[j].key@ == k;
                    lemma_entries_view_index(self.entries@, j);
                }
            }
            assert(self@ =~= spec_sweep(old(self)@, now_ms));
        }
    }
}

/// Failure of a store operation.
#[derive(Clone, Copy, Debug, PartialEq, Eq, Structural)]
pub enum StoreError {
    /// The named key holds no buffer.
    UnknownKey,
}

/// Creating a key twice keeps the first creation's buffer: the later writer
/// observes the existing entry, whatever snapshot it offered.
pub proof fn lemma_create_first_writer_wins(
    m: Map<Seq<char>, ChunkSnapshot>,
    k: Seq<char>,
    s1: ChunkSnapshot,
    s2: ChunkSnapshot,
)
    ensures
        spec_create(spec_create(m, k, s1), k, s2) == spec_create(m, k, s1),
{
    assert(spec_create(m, k, s1).contains_key(k));
}

/// Appending under one key leaves every other key's binding untouched.
pub proof fn lemma_append_preserves_other_keys(
    m: Map<Seq<char>, ChunkSnapshot>,
    k1: Seq<char>,
    p: Seq<u8>,
    k2: Seq<char>,
)
    requires
        k1 != k2,
    ensures
        spec_append(m, k1, p).contains_key(k2) == m.contains_key(k2),
        m.contains_key(k2) ==> spec_append(m, k1, p)[k2] == m[k2],
{
}

/// Appends under distinct keys commute: the store imposes no order between
/// writers of unrelated assets.
pub proof fn lemma_appends_to_distinct_keys_commute(
    m: Map<Seq<char>, ChunkSnapshot>,
    k1: Seq<char>,
    p1: Seq<u8>,
    k2: Seq<char>,
    p2: Seq<u8>,
)
    requires
        k1 != k2,
    ensures
        spec_append(spec_append(m, k1, p1), k2, p2) == spec_append(spec_append(m, k2, p2), k1, p1),
{
    let a = spec_append(spec_append(m, k1, p1), k2, p2);
    let b = spec_append(spec_append(m, k2, p2), k1, p1);
    assert(a =~= b);
}

/// The buffers that `writes` appends one after another to the key `k`.
pub open spec fn spec_append_all(
    m: Map<Seq<char>, ChunkSnapshot>,
    k: Seq<char>,
    writes: Seq<Seq<u8>>,
) -> Map<Seq<char>, ChunkSnapshot>
    decreases writes.len(),
{
    if writes.len() == 0 {
        m
    } else {
        spec_append_all(spec_append(m, k, writes.first()), k, writes.drop_first())
    }
}

/// Sequential appends concatenate: writing the fragments of `writes` one by
/// one to an existing key yields the buffer equal to the old bytes followed
/// by all fragments in submission order; its TTL data does not change.
pub proof fn lemma_sequential_appends_concatenate(
    m: Map<Seq<char>, ChunkSnapshot>,
    k: Seq<char>,
    writes: Seq<Seq<u8>>,
)
    requires
        m.contains_key(k),
    ensures
        spec_append_all(m, k, writes).contains_key(k),
        spec_append_all(m, k, writes)[k].data == m[k].data + writes.flatten(),
        spec_append_all(m, k, writes)[k].received_at_ms == m[k].received_at_ms,
        spec_append_all(m, k, writes)[k].max_age == m[k].max_age,
    decreases writes.len(),
{
    if writes.len() == 0 {
        assert(writes.flatten() == Seq::<u8>::empty());
        assert(m[k].data + writes.flatten() =~= m[k].data);
    } else {
        let m1 = spec_append(m, k, writes.first());
        lemma_sequential_appends_concatenate(m1, k, writes.drop_first());
        assert(writes.flatten() == writes.first() + writes.drop_first().flatten());
        assert(m1[k].data + writes.drop_first().flatten() =~= m[k].data + writes.flatten());
    }
}

} // verus!
