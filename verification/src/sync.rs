//! Two-way synchronisation of the local data folder with a remote store:
//! what to upload, download, skip, clean and delete, and how to report it.
//! The transfers themselves are done by the caller; these functions decide.
use vstd::prelude::*;
use crate::text::{push_decimal, push_str, to_chars};

verus! {

/// Name of the folder that keeps backups of overwritten or removed files.
pub const TRASH_DIR: &'static str = ".trash";

/// Name of the file that lists locally deleted prompts (tombstones).
pub const TOMBSTONE_FILE: &'static str = ".sync_deleted.json";

/// Name of the file that records the hash of each file at its last upload.
pub const SYNC_META_FILE: &'static str = ".sync_meta.json";

/// Name of the file that orders the prompts within each category.
pub const ORDER_FILE: &'static str = ".order.json";

/// Name of the file that orders the categories.
pub const CATEGORY_ORDER_FILE: &'static str = ".category-order.json";

/// Synchronisation state shown to the user.
#[derive(Debug, Clone)]
pub struct SyncStatus {
    pub configured: bool,
    pub enabled: bool,
    pub last_sync: Option<String>,
    pub last_error: Option<String>,
    pub syncing: bool,
}

/// What one synchronisation run did.
#[derive(Debug, Default)]
pub struct SyncReport {
    pub downloaded: u32,
    pub skipped: u32,
    pub deleted: u32,
    pub uploaded: u32,
    /// Deletions propagated to the remote (tombstones).
    pub deleted_remote: u32,
    pub errors: Vec<String>,
}

/// A remote file: path relative to the remote root (decoded, without
/// `.trash` or hidden parts) and its size in bytes.
#[derive(Debug)]
pub struct RemoteFile {
    pub rel: String,
    pub content_length: i64,
}

pub const FNV_OFFSET: u64 = 0xcbf29ce484222325;

pub const FNV_PRIME: u64 = 0x100000001b3;

/// The 64-bit FNV-1a hash of `data`.
pub open spec fn fnv1a(data: Seq<u8>) -> u64
    decreases data.len(),
{
    if data.len() == 0 {
        FNV_OFFSET
    } else {
        (((fnv1a(data.drop_last()) ^ (data.last() as u64)) as nat * FNV_PRIME as nat)
            % 0x1_0000_0000_0000_0000nat) as u64
    }
}

/// The fingerprint is FNV-1a (64 bits) over every byte, however long the
/// data: the empty data hashes to the offset basis 0xcbf29ce484222325, and
/// one more byte `b` turns the hash `h` into `(h ^ b) * 0x100000001b3`
/// modulo 2^64. So two contents that differ only in their last byte hash
/// from that byte, and an edit anywhere changes what is folded in.
pub proof fn law_fnv1a_every_byte(data: Seq<u8>, b: u8)
    ensures
        fnv1a(Seq::empty()) == 0xcbf29ce484222325u64,
        fnv1a(data.push(b)) as int == ((fnv1a(data) ^ (b as u64)) as int * 0x100000001b3int)
            % 0x1_0000_0000_0000_0000int,
{
    assert(data.push(b).drop_last() =~= data);
    assert(data.push(b).last() == b);
}

/// The 64-bit FNV-1a hash of `data` (the fingerprint of a file's contents).
pub fn fnv1a_hash(data: &[u8]) -> (h: u64)
    ensures
        h == fnv1a(data@),
{
    let mut hash: u64 = FNV_OFFSET;
    let mut i: usize = 0;
    while i < data.len()
        invariant
            0 <= i <= data@.len(),
            hash == fnv1a(data@.take(i as int)),
        decreases data@.len() - i,
    {
        assert(data@.take(i + 1).drop_last() =~= data@.take(i as int));
        hash = hash ^ (data[i] as u64);
        hash = hash.wrapping_mul(FNV_PRIME);
        i += 1;
    }
    assert(data@.take(i as int) =~= data@);
    hash
}

pub open spec fn order_file() -> Seq<char> {
    ORDER_FILE@
}

pub open spec fn category_order_file() -> Seq<char> {
    CATEGORY_ORDER_FILE@
}

/// Some `/`-separated segment of `rel` starts with `.` (this covers `.trash`).
pub open spec fn has_hidden_segment(rel: Seq<char>) -> bool {
    exists|i: int| 0 <= i < rel.len() && #[trigger] rel[i] == '.' && (i == 0 || rel[i - 1] == '/')
}

/// `rel` lies in `.trash` or in any hidden folder, or is a hidden file, and
/// so takes no part in synchronisation; the two order files at the top level
/// are the exception.
pub open spec fn trash_or_hidden(rel: Seq<char>) -> bool {
    if rel == order_file() || rel == category_order_file() {
        false
    } else {
        has_hidden_segment(rel)
    }
}

fn same_text(a: &str, b: &str) -> (r: bool)
    ensures
        r == (a@ == b@),
{
    crate::text::compare_text(a, b) == crate::text::TextOrder::Equal
}

/// Whether `rel` lies in `.trash` or a hidden folder or is a hidden file
/// (the two order files excepted).
pub fn is_trash_or_hidden_rel(rel: &str) -> (r: bool)
    ensures
        r == trash_or_hidden(rel@),
{
    if same_text(rel, ORDER_FILE) || same_text(rel, CATEGORY_ORDER_FILE) {
        return false;
    }
    let cs = to_chars(rel);
    let mut i: usize = 0;
    while i < cs.len()
        invariant
            0 <= i <= cs@.len(),
            cs@ == rel@,
            rel@ != order_file(),
            rel@ != category_order_file(),
            forall|j: int| 0 <= j < i ==> !(#[trigger] cs@[j] == '.' && (j == 0 || cs@[j - 1] == '/')),
        decreases cs@.len() - i,
    {
        if cs[i] == '.' && (i == 0 || cs[i - 1] == '/') {
            assert(0 <= i < rel@.len() && rel@[i as int] == '.' && (i == 0 || rel@[i - 1] == '/'));
            assert(has_hidden_segment(rel@));
            assert(rel@ != order_file());
            assert(rel@ != category_order_file());
            return true;
        }
        i += 1;
    }
    false
}

/// What `serde_json::from_str::<BTreeMap<String, u64>>` reads from the text
/// of the upload record file: paths in ascending order, each with its hash;
/// `None` when the text is not such a JSON object.
pub uninterp spec fn json_hash_record(text: Seq<char>) -> Option<Seq<(Seq<char>, u64)>>;

/// Reads the text of the upload record file (`serde_json::from_str` into a
/// `BTreeMap<String, u64>`, its entries in order). Trusted: the result is
/// `json_hash_record` of the text.
#[verifier::external_body]
fn parse_hash_record(text: &str) -> (r: Option<Vec<(String, u64)>>)
    ensures
        r.deep_view() == json_hash_record(text@),
{
    serde_json::from_str::<std::collections::BTreeMap<String, u64>>(text).ok().map(
        |m| m.into_iter().collect(),
    )
}

/// The map that recording the pairs of `e` one after the other gives.
pub open spec fn map_of_pairs(e: Seq<(Seq<char>, u64)>) -> Map<Seq<char>, u64>
    decreases e.len(),
{
    if e.len() == 0 {
        Map::empty()
    } else {
        map_of_pairs(e.drop_last()).insert(e.last().0, e.last().1)
    }
}

/// Recording pairs whose paths are all different: the first `n` of them
/// give a map holding exactly their paths, each with its hash.
proof fn lemma_pairs_unique(d: Seq<(Seq<char>, u64)>, n: int)
    requires
        0 <= n <= d.len(),
        forall|i: int, j: int| 0 <= i < j < d.len() ==> d[i].0 != d[j].0,
    ensures
        forall|k: Seq<char>|
            #[trigger] map_of_pairs(d.take(n)).contains_key(k) <==> exists|i: int| 0 <= i < n && d[i].0 == k,
        forall|i: int| 0 <= i < n ==> #[trigger] map_of_pairs(d.take(n))[d[i].0] == d[i].1,
    decreases n,
{
    if n > 0 {
        lemma_pairs_unique(d, n - 1);
        assert(d.take(n).drop_last() =~= d.take(n - 1));
        assert(d.take(n).last() == d[n - 1]);
        assert forall|k: Seq<char>| #[trigger] map_of_pairs(d.take(n)).contains_key(k) <==> exists|i: int|
            0 <= i < n && d[i].0 == k by {
            if map_of_pairs(d.take(n)).contains_key(k) && k != d[n - 1].0 {
                assert(map_of_pairs(d.take(n - 1)).contains_key(k));
                let i = choose|i: int| 0 <= i < n - 1 && d[i].0 == k;
                assert(0 <= i < n && d[i].0 == k);
            }
            if exists|i: int| 0 <= i < n && d[i].0 == k {
                let i = choose|i: int| 0 <= i < n && d[i].0 == k;
                if i < n - 1 {
                    assert(map_of_pairs(d.take(n - 1)).contains_key(k));
                }
            }
        }
        assert forall|i: int| 0 <= i < n implies #[trigger] map_of_pairs(d.take(n))[d[i].0] == d[i].1 by {
            if i < n - 1 {
                assert(d[i].0 != d[n - 1].0);
                assert(map_of_pairs(d.take(n - 1))[d[i].0] == d[i].1);
            }
        }
    } else {
        assert(d.take(0) =~= Seq::<(Seq<char>, u64)>::empty());
    }
}

/// The upload record read from the text of its file (`None`: no readable
/// file): empty when there is no file or its text is not a JSON object of
/// hashes.
pub open spec fn hash_record_of(text: Option<Seq<char>>) -> Map<Seq<char>, u64> {
    match text {
        Some(t) => match json_hash_record(t) {
            Some(e) => map_of_pairs(e),
            None => Map::empty(),
        },
        None => Map::empty(),
    }
}

/// The text `serde_json::to_string_pretty` gives for the upload record
/// holding the map `m` (a `BTreeMap<String, u64>`: paths in ascending
/// order, each with its hash).
pub uninterp spec fn json_hash_text(m: Map<Seq<char>, u64>) -> Seq<char>;

/// Writes the upload record as JSON (the pairs collected into a
/// `BTreeMap<String, u64>`, later pairs replacing earlier ones with the
/// same path, then `serde_json::to_string_pretty`, which fails only for a
/// failing `Serialize` impl or a map with non-string keys). Trusted: the
/// result is `json_hash_text` of the map of the pairs.
#[verifier::external_body]
fn hash_record_json(entries: &Vec<(String, u64)>) -> (r: String)
    ensures
        r@ == json_hash_text(map_of_pairs(entries.deep_view())),
{
    let map: std::collections::BTreeMap<String, u64> = entries.iter().cloned().collect();
    serde_json::to_string_pretty(&map).unwrap_or_default()
}

/// The upload record: for each relative path, the content hash of the file
/// when it was last uploaded. No path occurs twice.
#[derive(Debug)]
pub struct SyncMeta {
    entries: Vec<(String, u64)>,
}

impl SyncMeta {
    /// No path occurs twice among the entries.
    #[verifier::type_invariant]
    closed spec fn wf(&self) -> bool {
        forall|i: int, j: int|
            0 <= i < j < self.entries@.len() ==> self.entries@[i].0@ != self.entries@[j].0@
    }

    /// The record as a map from relative path to hash.
    pub closed spec fn view(&self) -> Map<Seq<char>, u64> {
        Map::new(
            |k: Seq<char>| exists|i: int| 0 <= i < self.entries@.len() && self.entries@[i].0@ == k,
            |k: Seq<char>|
                self.entries@[choose|i: int|
                    0 <= i < self.entries@.len() && self.entries@[i].0@ == k].1,
        )
    }

    /// An empty record.
    pub fn new() -> (r: Self)
        ensures
            r.view() == Map::<Seq<char>, u64>::empty(),
    {
        let r = SyncMeta { entries: Vec::new() };
        assert(r.view() =~= Map::<Seq<char>, u64>::empty());
        r
    }

    fn find(&self, k: &str) -> (r: Option<usize>)
        requires
            self.wf(),
        ensures
            r matches Some(i) ==> i < self.entries@.len() && self.entries@[i as int].0@ == k@,
            r is None ==> forall|i: int| 0 <= i < self.entries@.len() ==> self.entries@[i].0@ != k@,
    {
        let mut i: usize = 0;
        while i < self.entries.len()
            invariant
                0 <= i <= self.entries@.len(),
                forall|j: int| 0 <= j < i ==> self.entries@[j].0@ != k@,
            decreases self.entries@.len() - i,
        {
            if same_text(self.entries[i].0.as_str(), k) {
                return Some(i);
            }
            i += 1;
        }
        None
    }

    proof fn lemma_at(&self, i: int)
        requires
            self.wf(),
            0 <= i < self.entries@.len(),
        ensures
            self.view().contains_key(self.entries@[i].0@),
            self.view()[self.entries@[i].0@] == self.entries@[i].1,
    {
        let k = self.entries@[i].0@;
        assert(exists|j: int| 0 <= j < self.entries@.len() && self.entries@[j].0@ == k);
    }

    /// The hash recorded for `k`.
    pub fn get(&self, k: &str) -> (r: Option<u64>)
        ensures
            r == (if self.view().contains_key(k@) {
                Some(self.view()[k@])
            } else {
                None
            }),
    {
        proof {
            use_type_invariant(self);
        }
        match self.find(k) {
            Some(i) => {
                proof {
                    self.lemma_at(i as int);
                }
                Some(self.entries[i].1)
            },
            None => None,
        }
    }

    /// Records hash `h` for `k`, replacing any earlier one.
    pub fn insert(&mut self, k: String, h: u64)
        ensures
            final(self).view() == old(self).view().insert(k@, h),
    {
        proof {
            use_type_invariant(&*self);
        }
        let ghost old_map = self.view();
        let ghost old_entries = self.entries@;
        let found = self.find(k.as_str());
        let mut entries: Vec<(String, u64)> = Vec::new();
        std::mem::swap(&mut entries, &mut self.entries);
        assert(entries@ == old_entries);
        match found {
            Some(i) => {
                entries.set(i, (k, h));
                assert forall|a: int, b: int| 0 <= a < b < entries@.len() implies entries@[a].0@
                    != entries@[b].0@ by {
                    assert(a != i ==> entries@[a] == old_entries[a]);
                    assert(b != i ==> entries@[b] == old_entries[b]);
                }
                self.entries = entries;
                proof {
                    assert forall|key: Seq<char>| #[trigger] self.view().contains_key(key) == old_map.insert(k@, h).contains_key(key) by {
                        if exists|j: int| 0 <= j < old_entries.len() && old_entries[j].0@ == key {
                            let j = choose|j: int| 0 <= j < old_entries.len() && old_entries[j].0@ == key;
                            assert(self.entries@[j].0@ == key);
                        }
                        if exists|j: int| 0 <= j < self.entries@.len() && self.entries@[j].0@ == key {
                            let j = choose|j: int| 0 <= j < self.entries@.len() && self.entries@[j].0@ == key;
                            assert(old_entries[j].0@ == key);
                        }
                    }
                    assert forall|key: Seq<char>| self.view().contains_key(key) implies #[trigger] self.view()[key] == old_map.insert(k@, h)[key] by {
                        let j = choose|j: int| 0 <= j < self.entries@.len() && self.entries@[j].0@ == key;
                        self.lemma_at(j);
                        if j != i {
                            assert(self.entries@[j] == old_entries[j]);
                            assert(old_map.contains_key(key));
                            let jj = choose|jj: int| 0 <= jj < old_entries.len() && old_entries[jj].0@ == key;
                            assert(jj == j);
                        }
                    }
                    assert(self.view() =~= old_map.insert(k@, h));
                }
            },
            None => {
                entries.push((k, h));
                let ghost n = old_entries.len();
                assert forall|a: int, b: int| 0 <= a < b < entries@.len() implies entries@[a].0@
                    != entries@[b].0@ by {
                    assert(entries@[a] == old_entries[a] || a == n);
                }
                self.entries = entries;
                proof {
                    assert forall|key: Seq<char>| #[trigger] self.view().contains_key(key) == old_map.insert(k@, h).contains_key(key) by {
                        if exists|j: int| 0 <= j < old_entries.len() && old_entries[j].0@ == key {
                            let j = choose|j: int| 0 <= j < old_entries.len() && old_entries[j].0@ == key;
                            assert(self.entries@[j].0@ == key);
                        }
                        if key == k@ {
                            assert(self.entries@[n as int].0@ == key);
                        }
                    }
                    assert forall|key: Seq<char>| self.view().contains_key(key) implies #[trigger] self.view()[key] == old_map.insert(k@, h)[key] by {
                        let j = choose|j: int| 0 <= j < self.entries@.len() && self.entries@[j].0@ == key;
                        self.lemma_at(j);
                        if j < n {
                            let jj = choose|jj: int| 0 <= jj < old_entries.len() && old_entries[jj].0@ == key;
                            assert(self.entries@[jj] == old_entries[jj]);
                            assert(jj == j);
                        }
                    }
                    assert(self.view() =~= old_map.insert(k@, h));
                }
            },
        }
    }

    /// Forgets the hash recorded for `k`.
    pub fn remove(&mut self, k: &str)
        ensures
            final(self).view() == old(self).view().remove(k@),
    {
        proof {
            use_type_invariant(&*self);
        }
        let ghost old_map = self.view();
        let ghost old_entries = self.entries@;
        match self.find(k) {
            Some(i) => {
                let mut entries: Vec<(String, u64)> = Vec::new();
                std::mem::swap(&mut entries, &mut self.entries);
                assert(entries@ == old_entries);
                entries.remove(i);
                assert forall|a: int, b: int| 0 <= a < b < entries@.len() implies entries@[a].0@
                    != entries@[b].0@ by {
                    let oa = if a < i { a } else { a + 1 };
                    let ob = if b < i { b } else { b + 1 };
                    assert(entries@[a] == old_entries[oa]);
                    assert(entries@[b] == old_entries[ob]);
                }
                self.entries = entries;
                proof {
                    assert forall|key: Seq<char>| #[trigger] self.view().contains_key(key) == old_map.remove(k@).contains_key(key) by {
                        if exists|j: int| 0 <= j < old_entries.len() && old_entries[j].0@ == key {
                            let j = choose|j: int| 0 <= j < old_entries.len() && old_entries[j].0@ == key;
                            if j < i {
                                assert(self.entries@[j].0@ == key);
                            } else if j > i {
                                assert(self.entries@[j - 1].0@ == key);
                            }
                        }
                        if exists|j: int| 0 <= j < self.entries@.len() && self.entries@[j].0@ == key {
                            let j = choose|j: int| 0 <= j < self.entries@.len() && self.entries@[j].0@ == key;
                            let oj = if j < i { j } else { j + 1 };
                            assert(old_entries[oj].0@ == key);
                        }
                    }
                    assert forall|key: Seq<char>| self.view().contains_key(key) implies #[trigger] self.view()[key] == old_map.remove(k@)[key] by {
                        let j = choose|j: int| 0 <= j < self.entries@.len() && self.entries@[j].0@ == key;
                        self.lemma_at(j);
                        let oj = if j < i { j } else { j + 1 };
                        assert(self.entries@[j] == old_entries[oj]);
                        let jj = choose|jj: int| 0 <= jj < old_entries.len() && old_entries[jj].0@ == key;
                        assert(jj == oj);
                    }
                    assert(self.view() =~= old_map.remove(k@));
                }
            },
            None => {
                proof {
                    assert(!old_map.contains_key(k@));
                    assert(self.view() =~= old_map.remove(k@));
                }
            },
        }
    }

    /// The upload record read from the text of its file.
    pub fn from_text(text: Option<&str>) -> (r: SyncMeta)
        ensures
            r.view() == hash_record_of(text.deep_view()),
    {
        let mut meta = SyncMeta::new();
        let pairs = match text {
            Some(t) => match parse_hash_record(t) {
                Some(e) => e,
                None => Vec::new(),
            },
            None => Vec::new(),
        };
        let ghost e = pairs.deep_view();
        let mut i: usize = 0;
        while i < pairs.len()
            invariant
                0 <= i <= pairs@.len(),
                e == pairs.deep_view(),
                meta.view() == map_of_pairs(e.take(i as int)),
            decreases pairs@.len() - i,
        {
            assert(e.take(i + 1).drop_last() =~= e.take(i as int));
            assert(e[i as int] == (pairs@[i as int].0@, pairs@[i as int].1));
            meta.insert(pairs[i].0.clone(), pairs[i].1);
            i += 1;
        }
        assert(e.take(pairs@.len() as int) =~= e);
        meta
    }

    /// The text of the upload record file for this record.
    pub fn to_text(&self) -> (r: String)
        ensures
            r@ == json_hash_text(self.view()),
    {
        proof {
            use_type_invariant(self);
            let d = self.entries.deep_view();
            assert forall|i: int, j: int| 0 <= i < j < d.len() implies d[i].0 != d[j].0 by {
                assert(d[i].0 == self.entries@[i].0@);
                assert(d[j].0 == self.entries@[j].0@);
            }
            lemma_pairs_unique(d, d.len() as int);
            assert(d.take(d.len() as int) =~= d);
            assert forall|k: Seq<char>| #[trigger] map_of_pairs(d).contains_key(k) == self.view().contains_key(k) by {
                if map_of_pairs(d).contains_key(k) {
                    let i = choose|i: int| 0 <= i < d.len() && d[i].0 == k;
                    assert(self.entries@[i].0@ == k);
                }
                if self.view().contains_key(k) {
                    let i = choose|i: int| 0 <= i < self.entries@.len() && self.entries@[i].0@ == k;
                    assert(d[i].0 == k);
                }
            }
            assert forall|k: Seq<char>| #[trigger] map_of_pairs(d).contains_key(k) implies map_of_pairs(d)[k] == self.view()[k] by {
                let i = choose|i: int| 0 <= i < d.len() && d[i].0 == k;
                assert(self.entries@[i].0@ == k);
                self.lemma_at(i);
            }
            assert(map_of_pairs(d) =~= self.view());
        }
        hash_record_json(&self.entries)
    }

    /// The recorded (path, hash) pairs, each path once.
    pub fn entries(&self) -> (r: Vec<(String, u64)>)
        ensures
            forall|i: int|
                0 <= i < r.len() ==> self.view().contains_key(#[trigger] r@[i].0@) && self.view()[r@[i].0@]
                    == r@[i].1,
            forall|k: Seq<char>|
                #[trigger] self.view().contains_key(k) ==> exists|i: int| 0 <= i < r.len() && r@[i].0@ == k,
            forall|i: int, j: int| 0 <= i < j < r.len() ==> r@[i].0@ != r@[j].0@,
    {
        proof {
            use_type_invariant(self);
        }
        let mut r: Vec<(String, u64)> = Vec::new();
        let mut i: usize = 0;
        while i < self.entries.len()
            invariant
                self.wf(),
                0 <= i <= self.entries@.len(),
                r.len() == i,
                forall|j: int| 0 <= j < i ==> #[trigger] r@[j].0@ == self.entries@[j].0@ && r@[j].1 == self.entries@[j].1,
            decreases self.entries@.len() - i,
        {
            r.push((self.entries[i].0.clone(), self.entries[i].1));
            i += 1;
        }
        proof {
            assert forall|j: int| 0 <= j < r.len() implies self.view().contains_key(#[trigger] r@[j].0@) && self.view()[r@[j].0@] == r@[j].1 by {
                self.lemma_at(j);
            }
            assert forall|k: Seq<char>| #[trigger] self.view().contains_key(k) implies exists|j: int| 0 <= j < r.len() && r@[j].0@ == k by {
                let j = choose|j: int| 0 <= j < self.entries@.len() && self.entries@[j].0@ == k;
                assert(r@[j].0@ == k);
            }
        }
        r
    }
}

/// What to do with one remote file when pulling.
#[derive(Debug, PartialEq, Eq, Structural, Clone, Copy)]
pub struct PullStep {
    /// The local tombstone of the file is to be dropped: the remote holds a
    /// newer version than the one deleted here.
    pub clear_tombstone: bool,
    /// The remote file is to be downloaded over the local one.
    pub fetch: bool,
    /// Before downloading, the local file is to be moved to the trash.
    pub backup: bool,
}

/// The decision for a remote file of `content_length` bytes, given the size
/// recorded by a local tombstone (if the file was deleted here) and the
/// size of the local file (if it exists): a tombstone whose size is unknown
/// (0) or equal to the remote size keeps the file deleted; otherwise the file
/// is fetched when the local copy is missing or of another size, backing up
/// an existing local copy first.
pub open spec fn pull_decision(tomb_size: Option<u64>, content_length: i64, local_size: Option<i64>) -> PullStep {
    if tomb_size matches Some(sz) && (sz == 0 || sz as i64 == content_length) {
        PullStep { clear_tombstone: false, fetch: false, backup: false }
    } else {
        let fetch = local_size != Some(content_length);
        PullStep {
            clear_tombstone: tomb_size is Some,
            fetch,
            backup: fetch && local_size is Some,
        }
    }
}

/// Decides what to do with one remote file when pulling.
pub fn pull_step(tomb_size: Option<u64>, content_length: i64, local_size: Option<i64>) -> (r: PullStep)
    ensures
        r == pull_decision(tomb_size, content_length, local_size),
{
    let mut clear_tombstone = false;
    if let Some(sz) = tomb_size {
        if sz == 0 || #[verifier::truncate] (sz as i64) == content_length {
            return PullStep { clear_tombstone: false, fetch: false, backup: false };
        }
        clear_tombstone = true;
    }
    let fetch = match local_size {
        Some(size) => size != content_length,
        None => true,
    };
    PullStep { clear_tombstone, fetch, backup: fetch && local_size.is_some() }
}

/// A file deleted here stays deleted: while the remote still holds the
/// version it had when deleted (same size, or a size not known), pulling
/// neither downloads it nor drops the tombstone.
pub proof fn law_tombstone_blocks_resurrection(tomb_size: u64, content_length: i64, local_size: Option<i64>)
    requires
        tomb_size == 0 || tomb_size as i64 == content_length,
    ensures
        !pull_decision(Some(tomb_size), content_length, local_size).fetch,
        !pull_decision(Some(tomb_size), content_length, local_size).clear_tombstone,
{
}

/// A newer remote version wins over a local deletion: when the remote size
/// differs from the recorded one, the tombstone goes and the file is
/// downloaded unless a local copy of that size is there.
pub proof fn law_new_remote_version_wins(tomb_size: u64, content_length: i64, local_size: Option<i64>)
    requires
        tomb_size != 0,
        tomb_size as i64 != content_length,
    ensures
        pull_decision(Some(tomb_size), content_length, local_size).clear_tombstone,
        pull_decision(Some(tomb_size), content_length, local_size).fetch == (local_size != Some(
            content_length,
        )),
{
}

/// Pulling never overwrites a local file without backing it up first, and
/// downloads exactly what is missing or of another size.
pub proof fn law_backup_before_overwrite(tomb_size: Option<u64>, content_length: i64, local_size: Option<i64>)
    ensures
        pull_decision(tomb_size, content_length, local_size).backup <==> (pull_decision(
            tomb_size,
            content_length,
            local_size,
        ).fetch && local_size is Some),
        tomb_size is None ==> (pull_decision(tomb_size, content_length, local_size).fetch <==> local_size
            != Some(content_length)),
{
}

/// An uploaded file is not uploaded again while its content stays the same:
/// once the upload record holds its hash, it is not due.
pub proof fn law_uploaded_content_not_resent(record: Map<Seq<char>, u64>, rel: Seq<char>, hash: u64)
    ensures
        !upload_due(record.insert(rel, hash), rel, hash),
{
}

/// A file never uploaded, or changed since, is due; the same file is no
/// longer due once its upload is recorded.
pub proof fn law_changed_content_resent(record: Map<Seq<char>, u64>, rel: Seq<char>, hash: u64)
    requires
        !(record.contains_key(rel) && record[rel] == hash),
    ensures
        upload_due(record, rel, hash),
        !upload_due(record.insert(rel, hash), rel, hash),
{
}

/// `a` followed by `b` and `c`.
fn concat3(a: &str, b: &str, c: &str) -> (r: String)
    ensures
        r@ == a@ + b@ + c@,
{
    let mut out = String::new();
    push_str(&mut out, a);
    push_str(&mut out, b);
    push_str(&mut out, c);
    assert(out@ =~= a@ + b@ + c@);
    out
}

impl SyncReport {
    /// A report of nothing done.
    pub fn empty() -> (r: Self)
        ensures
            r.downloaded == 0 && r.skipped == 0 && r.deleted == 0 && r.uploaded == 0 && r.deleted_remote == 0,
            r.errors@.len() == 0,
    {
        SyncReport { downloaded: 0, skipped: 0, deleted: 0, uploaded: 0, deleted_remote: 0, errors: Vec::new() }
    }

    /// Counts a file that needed no transfer.
    pub fn note_skipped(&mut self)
        requires
            old(self).skipped < u32::MAX,
        ensures
            final(self).skipped == old(self).skipped + 1,
            final(self).downloaded == old(self).downloaded,
            final(self).deleted == old(self).deleted,
            final(self).uploaded == old(self).uploaded,
            final(self).deleted_remote == old(self).deleted_remote,
            final(self).errors@ == old(self).errors@,
    {
        self.skipped = self.skipped + 1;
    }

    /// Counts a local file moved to the trash because the remote no longer has it.
    pub fn note_cleaned(&mut self)
        requires
            old(self).deleted < u32::MAX,
        ensures
            final(self).deleted == old(self).deleted + 1,
            final(self).downloaded == old(self).downloaded,
            final(self).skipped == old(self).skipped,
            final(self).uploaded == old(self).uploaded,
            final(self).deleted_remote == old(self).deleted_remote,
            final(self).errors@ == old(self).errors@,
    {
        self.deleted = self.deleted + 1;
    }

    /// Records the outcome of downloading `rel`: a count on success, the
    /// message `rel: error` on failure.
    pub fn note_download(&mut self, rel: &str, outcome: Result<(), String>)
        requires
            old(self).downloaded < u32::MAX,
        ensures
            final(self).skipped == old(self).skipped,
            final(self).deleted == old(self).deleted,
            final(self).uploaded == old(self).uploaded,
            final(self).deleted_remote == old(self).deleted_remote,
            match outcome {
                Ok(()) => final(self).downloaded == old(self).downloaded + 1 && final(self).errors@ == old(self).errors@,
                Err(e) => final(self).downloaded == old(self).downloaded && final(self).errors.deep_view()
                    == old(self).errors.deep_view().push(rel@ + ": "@ + e@),
            },
    {
        match outcome {
            Ok(()) => {
                self.downloaded = self.downloaded + 1;
            },
            Err(e) => {
                let ghost before = self.errors.deep_view();
                self.errors.push(concat3(rel, ": ", e.as_str()));
                assert(self.errors.deep_view() =~= before.push(rel@ + ": "@ + e@));
            },
        }
    }

    /// Records the outcome of uploading `rel` with content hash `hash`: on
    /// success a count and the hash in the upload record, on failure the
    /// message `rel: error`.
    pub fn note_upload(&mut self, meta: &mut SyncMeta, rel: String, hash: u64, outcome: Result<(), String>)
        requires
            old(self).uploaded < u32::MAX,
        ensures
            final(self).skipped == old(self).skipped,
            final(self).downloaded == old(self).downloaded,
            final(self).deleted == old(self).deleted,
            final(self).deleted_remote == old(self).deleted_remote,
            match outcome {
                Ok(()) => final(self).uploaded == old(self).uploaded + 1 && final(self).errors@ == old(self).errors@
                    && final(meta).view() == old(meta).view().insert(rel@, hash),
                Err(e) => final(self).uploaded == old(self).uploaded && final(self).errors.deep_view()
                    == old(self).errors.deep_view().push(rel@ + ": "@ + e@) && final(meta).view() == old(meta).view(),
            },
    {
        match outcome {
            Ok(()) => {
                self.uploaded = self.uploaded + 1;
                meta.insert(rel, hash);
            },
            Err(e) => {
                let ghost before = self.errors.deep_view();
                self.errors.push(concat3(rel.as_str(), ": ", e.as_str()));
                assert(self.errors.deep_view() =~= before.push(rel@ + ": "@ + e@));
            },
        }
    }

    /// Records a local file that could not be read for upload.
    pub fn note_read_error(&mut self, rel: &str, e: &str)
        ensures
            final(self).skipped == old(self).skipped,
            final(self).downloaded == old(self).downloaded,
            final(self).deleted == old(self).deleted,
            final(self).uploaded == old(self).uploaded,
            final(self).deleted_remote == old(self).deleted_remote,
            final(self).errors.deep_view() == old(self).errors.deep_view().push(rel@ + "（读文件）: "@ + e@),
    {
        let ghost before = self.errors.deep_view();
        self.errors.push(concat3(rel, "（读文件）: ", e));
        assert(self.errors.deep_view() =~= before.push(rel@ + "（读文件）: "@ + e@));
    }

    /// Records the outcome of propagating the local deletion of `rel`: on
    /// success a count and `rel` dropped from the upload record (the caller
    /// then drops the tombstone); on failure the message `rel（删除传播）: error`
    /// (the tombstone stays for the next run). Returns whether it succeeded.
    pub fn note_remote_delete(&mut self, meta: &mut SyncMeta, rel: &str, outcome: Result<(), String>) -> (done: bool)
        requires
            old(self).deleted_remote < u32::MAX,
        ensures
            done == outcome is Ok,
            final(self).skipped == old(self).skipped,
            final(self).downloaded == old(self).downloaded,
            final(self).deleted == old(self).deleted,
            final(self).uploaded == old(self).uploaded,
            match outcome {
                Ok(()) => final(self).deleted_remote == old(self).deleted_remote + 1 && final(self).errors@ == old(self).errors@
                    && final(meta).view() == old(meta).view().remove(rel@),
                Err(e) => final(self).deleted_remote == old(self).deleted_remote && final(self).errors.deep_view()
                    == old(self).errors.deep_view().push(rel@ + "（删除传播）: "@ + e@) && final(meta).view() == old(meta).view(),
            },
    {
        match outcome {
            Ok(()) => {
                self.deleted_remote = self.deleted_remote + 1;
                meta.remove(rel);
                true
            },
            Err(e) => {
                let ghost before = self.errors.deep_view();
                self.errors.push(concat3(rel, "（删除传播）: ", e.as_str()));
                assert(self.errors.deep_view() =~= before.push(rel@ + "（删除传播）: "@ + e@));
                false
            },
        }
    }

    /// Before cleaning local files: with no remote file listed (a failed or
    /// unreadable listing), records a warning and says not to clean, so that
    /// local files are not all moved to the trash.
    pub fn check_remote_listing(&mut self, remote_count: usize) -> (clean: bool)
        ensures
            clean == (remote_count > 0),
            final(self).skipped == old(self).skipped,
            final(self).downloaded == old(self).downloaded,
            final(self).deleted == old(self).deleted,
            final(self).uploaded == old(self).uploaded,
            final(self).deleted_remote == old(self).deleted_remote,
            clean ==> final(self).errors@ == old(self).errors@,
            !clean ==> final(self).errors.deep_view() == old(self).errors.deep_view().push(empty_listing_warning()),
    {
        if remote_count > 0 {
            true
        } else {
            let ghost before = self.errors.deep_view();
            self.errors.push(String::from_str("警告：未获取到远程文件列表，跳过本地清理（可能网络或解析问题）"));
            assert(self.errors.deep_view() =~= before.push(empty_listing_warning()));
            false
        }
    }
}

/// The warning recorded when the remote listing is empty.
pub open spec fn empty_listing_warning() -> Seq<char> {
    "警告：未获取到远程文件列表，跳过本地清理（可能网络或解析问题）"@
}

/// The file `rel` with content hash `hash` is due for upload: the upload
/// record has no hash for it, or another one.
pub open spec fn upload_due(record: Map<Seq<char>, u64>, rel: Seq<char>, hash: u64) -> bool {
    !(record.contains_key(rel) && record[rel] == hash)
}

/// Whether the file `rel` with content hash `hash` needs uploading.
pub fn upload_needed(meta: &SyncMeta, rel: &str, hash: u64) -> (r: bool)
    ensures
        r == upload_due(meta.view(), rel@, hash),
{
    match meta.get(rel) {
        Some(last) => last != hash,
        None => true,
    }
}

/// The walk that collects files to upload does not enter or take an entry
/// with this name: the trash, the upload record and the tombstone list stay
/// local.
pub open spec fn push_excluded(name: Seq<char>) -> bool {
    name == TRASH_DIR@ || name == SYNC_META_FILE@ || name == TOMBSTONE_FILE@
}

/// Whether the upload walk leaves out the entry called `name`.
pub fn is_push_excluded(name: &str) -> (r: bool)
    ensures
        r == push_excluded(name@),
{
    same_text(name, TRASH_DIR) || same_text(name, SYNC_META_FILE) || same_text(name, TOMBSTONE_FILE)
}

/// A file is uploaded when it is a `.md` file or one of the two order files,
/// and its name does not start with `~` (`name`: the file name, empty when
/// not UTF-8; `extension`: its extension when UTF-8).
pub open spec fn push_candidate(name: Seq<char>, extension: Option<Seq<char>>) -> bool {
    &&& (extension == Some(crate::store::md_ext()) || name == ORDER_FILE@ || name == CATEGORY_ORDER_FILE@)
    &&& !(name.len() > 0 && name[0] == '~')
}

/// Whether the file called `name`, with `extension`, is uploaded.
pub fn is_push_candidate(name: &str, extension: Option<&str>) -> (r: bool)
    ensures
        r == push_candidate(name@, extension.deep_view()),
{
    let is_md = match extension {
        Some(e) => same_text(e, "md"),
        None => false,
    };
    proof {
        reveal_strlit("md");
        assert("md"@ =~= crate::store::md_ext());
    }
    let is_order = same_text(name, ORDER_FILE) || same_text(name, CATEGORY_ORDER_FILE);
    let cs = to_chars(name);
    let tilde = cs.len() > 0 && cs[0] == '~';
    (is_md || is_order) && !tilde
}

/// What to do with one local entry when removing the files that the remote
/// no longer has.
#[derive(Debug, PartialEq, Eq, Structural, Clone, Copy)]
pub enum CleanStep {
    /// Leave it alone.
    Keep,
    /// Look inside the folder.
    Descend,
    /// Move the file to the trash.
    Trash,
}

/// `remote` lists `rel`.
pub open spec fn listed(remote: Seq<Seq<char>>, rel: Seq<char>) -> bool {
    exists|i: int| 0 <= i < remote.len() && remote[i] == rel
}

/// Hidden entries (the trash among them) are left alone; folders are
/// entered; a `.md` file that the remote does not list goes to the trash.
pub open spec fn clean_decision(
    name: Seq<char>,
    is_dir: bool,
    extension: Option<Seq<char>>,
    rel: Seq<char>,
    remote: Seq<Seq<char>>,
) -> CleanStep {
    if name.len() > 0 && name[0] == '.' {
        CleanStep::Keep
    } else if is_dir {
        CleanStep::Descend
    } else if extension == Some(crate::store::md_ext()) && !listed(remote, rel) {
        CleanStep::Trash
    } else {
        CleanStep::Keep
    }
}

/// Cleaning after a download: a visible local Markdown file (its name not
/// starting with `.`) goes to the trash exactly when the remote does not list
/// its relative path, wherever it lies (the top of the data folder
/// included); a listed one is kept.
pub proof fn law_unlisted_prompt_trashed(name: Seq<char>, rel: Seq<char>, remote: Seq<Seq<char>>)
    requires
        !(name.len() > 0 && name[0] == '.'),
    ensures
        (forall|i: int| 0 <= i < remote.len() ==> remote[i] != rel) ==> clean_decision(
            name,
            false,
            Some(seq!['m', 'd']),
            rel,
            remote,
        ) == CleanStep::Trash,
        (exists|i: int| 0 <= i < remote.len() && remote[i] == rel) ==> clean_decision(
            name,
            false,
            Some(seq!['m', 'd']),
            rel,
            remote,
        ) == CleanStep::Keep,
{
    assert(seq!['m', 'd'] =~= crate::store::md_ext());
}

/// Decides what to do with a local entry (`name`, whether it is a folder,
/// its extension and its path relative to the data folder) given the
/// relative paths that the remote lists.
pub fn clean_step(name: &str, is_dir: bool, extension: Option<&str>, rel: &str, remote: &Vec<String>) -> (r: CleanStep)
    ensures
        r == clean_decision(name@, is_dir, extension.deep_view(), rel@, remote.deep_view()),
{
    let cs = to_chars(name);
    if cs.len() > 0 && cs[0] == '.' {
        return CleanStep::Keep;
    }
    if is_dir {
        return CleanStep::Descend;
    }
    let is_md = match extension {
        Some(e) => same_text(e, "md"),
        None => false,
    };
    proof {
        reveal_strlit("md");
        assert("md"@ =~= crate::store::md_ext());
    }
    if !is_md {
        return CleanStep::Keep;
    }
    assert(!(name@.len() > 0 && name@[0] == '.'));
    let mut i: usize = 0;
    while i < remote.len()
        invariant
            0 <= i <= remote@.len(),
            !(name@.len() > 0 && name@[0] == '.'),
            !is_dir,
            extension.deep_view() == Some(crate::store::md_ext()),
            forall|j: int| 0 <= j < i ==> remote.deep_view()[j] != rel@,
        decreases remote@.len() - i,
    {
        if same_text(remote[i].as_str(), rel) {
            assert(remote.deep_view()[i as int] == rel@);
            return CleanStep::Keep;
        }
        i += 1;
    }
    CleanStep::Trash
}

/// The message shown after an upload: the number of files uploaded, the
/// remote deletions when there were any, the failures when there were any.
pub open spec fn upload_summary_text(r: SyncReport) -> Seq<char> {
    "上传完成：共 "@ + crate::text::decimal(r.uploaded as nat) + " 个文件"@ + (if r.deleted_remote > 0 {
        "，云端删除 "@ + crate::text::decimal(r.deleted_remote as nat)
    } else {
        Seq::empty()
    }) + (if r.errors@.len() > 0 {
        "，"@ + crate::text::decimal(r.errors@.len()) + " 个失败"@
    } else {
        Seq::empty()
    })
}

/// The message shown after an upload.
pub fn upload_summary(r: &SyncReport) -> (m: String)
    ensures
        m@ == upload_summary_text(*r),
{
    let mut out = String::new();
    push_str(&mut out, "上传完成：共 ");
    push_decimal(&mut out, r.uploaded as u64, 0);
    push_str(&mut out, " 个文件");
    if r.deleted_remote > 0 {
        push_str(&mut out, "，云端删除 ");
        push_decimal(&mut out, r.deleted_remote as u64, 0);
    }
    if r.errors.len() > 0 {
        push_str(&mut out, "，");
        push_decimal(&mut out, r.errors.len() as u64, 0);
        push_str(&mut out, " 个失败");
    }
    assert(out@ =~= upload_summary_text(*r));
    out
}

/// The message shown after a download: files updated, skipped and cleaned,
/// then the failures when there were any.
pub open spec fn download_summary_text(r: SyncReport) -> Seq<char> {
    "下载完成：更新 "@ + crate::text::decimal(r.downloaded as nat) + "，跳过 "@ + crate::text::decimal(
        r.skipped as nat,
    ) + "，清理 "@ + crate::text::decimal(r.deleted as nat) + (if r.errors@.len() > 0 {
        "，"@ + crate::text::decimal(r.errors@.len()) + " 个失败"@
    } else {
        Seq::empty()
    })
}

/// The message shown after a download.
pub fn download_summary(r: &SyncReport) -> (m: String)
    ensures
        m@ == download_summary_text(*r),
{
    let mut out = String::new();
    push_str(&mut out, "下载完成：更新 ");
    push_decimal(&mut out, r.downloaded as u64, 0);
    push_str(&mut out, "，跳过 ");
    push_decimal(&mut out, r.skipped as u64, 0);
    push_str(&mut out, "，清理 ");
    push_decimal(&mut out, r.deleted as u64, 0);
    if r.errors.len() > 0 {
        push_str(&mut out, "，");
        push_decimal(&mut out, r.errors.len() as u64, 0);
        push_str(&mut out, " 个失败");
    }
    assert(out@ =~= download_summary_text(*r));
    out
}

/// `parts` joined with `sep` between them.
pub open spec fn join_with(parts: Seq<Seq<char>>, sep: Seq<char>) -> Seq<char>
    decreases parts.len(),
{
    if parts.len() == 0 {
        Seq::empty()
    } else if parts.len() == 1 {
        parts[0]
    } else {
        join_with(parts.drop_last(), sep) + sep + parts.last()
    }
}

/// The error to show after a run: all failures joined by `; `, or none.
pub fn error_summary(r: &SyncReport) -> (m: Option<String>)
    ensures
        r.errors@.len() == 0 ==> m is None,
        r.errors@.len() > 0 ==> (m matches Some(t) && t@ == join_with(r.errors.deep_view(), "; "@)),
{
    if r.errors.len() == 0 {
        return None;
    }
    let ghost parts = r.errors.deep_view();
    let mut out = String::new();
    let mut i: usize = 0;
    while i < r.errors.len()
        invariant
            0 <= i <= r.errors@.len(),
            parts == r.errors.deep_view(),
            out@ == join_with(parts.take(i as int), "; "@),
        decreases r.errors@.len() - i,
    {
        assert(parts.take(i + 1).drop_last() =~= parts.take(i as int));
        if i > 0 {
            push_str(&mut out, "; ");
        } else {
            assert(parts.take(0) =~= Seq::<Seq<char>>::empty());
        }
        push_str(&mut out, r.errors[i].as_str());
        i += 1;
    }
    assert(parts.take(i as int) =~= parts);
    Some(out)
}

} // verus!
